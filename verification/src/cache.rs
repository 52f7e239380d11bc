//! Write-once caches in front of the geocoding and routing providers.
//!
//! Both caches are insert-if-absent: the first value stored under a key is
//! the value every later reader sees.

use crate::model::{Coordinates, TransportationMode};
use vstd::prelude::*;

verus! {

/// A map after an insert-if-absent: `value` is stored under `key` only where
/// the key has no value yet.
pub open spec fn write_once<K, V>(stored: Map<K, V>, key: K, value: V) -> Map<K, V> {
    if stored.contains_key(key) {
        stored
    } else {
        stored.insert(key, value)
    }
}

/// Write-once: whatever is written second under a key changes nothing, and
/// the key holds what it held before the first write, or else what the
/// first write brought. No other key is touched.
pub proof fn law_first_write_wins<K, V>(stored: Map<K, V>, key: K, first: V, second: V)
    ensures
        write_once(write_once(stored, key, first), key, second) == write_once(stored, key, first),
        write_once(stored, key, first).contains_key(key),
        write_once(stored, key, first)[key] == (if stored.contains_key(key) {
            stored[key]
        } else {
            first
        }),
        forall|other: K|
            other != key ==> (#[trigger] write_once(stored, key, first).contains_key(other)
                == stored.contains_key(other)),
        forall|other: K|
            other != key && stored.contains_key(other) ==> #[trigger] write_once(
                stored,
                key,
                first,
            )[other] == stored[other],
{
}

/// One remembered position.
#[derive(Clone, Debug, PartialEq, Eq)]
pub struct CoordinateEntry {
    pub address: String,
    pub coordinates: Coordinates,
}

/// Positions by address.
pub struct CoordinateCache {
    entries: Vec<CoordinateEntry>,
}

impl CoordinateCache {
    spec fn holds(&self, i: int, address: Seq<char>) -> bool {
        0 <= i < self.entries.len() && self.entries[i].address@ == address
    }

    spec fn first(&self, i: int, address: Seq<char>) -> bool {
        self.holds(i, address) && forall|j: int| 0 <= j < i ==> !self.holds(j, address)
    }

    /// The cache as a map from address to the position stored first.
    pub closed spec fn view(&self) -> Map<Seq<char>, Coordinates> {
        Map::new(
            |address: Seq<char>| exists|i: int| self.holds(i, address),
            |address: Seq<char>| self.entries[choose|i: int| self.first(i, address)].coordinates,
        )
    }

    /// The entries in the order they were stored.
    pub closed spec fn stored(&self) -> Seq<CoordinateEntry> {
        self.entries@
    }

    proof fn lemma_first_exists(&self, i: int, address: Seq<char>)
        requires
            self.holds(i, address),
        ensures
            exists|c: int| self.first(c, address),
        decreases i,
    {
        if exists|j: int| 0 <= j < i && self.holds(j, address) {
            let j = choose|j: int| 0 <= j < i && self.holds(j, address);
            self.lemma_first_exists(j, address);
        } else {
            assert(self.first(i, address));
        }
    }

    /// An empty cache.
    pub fn new() -> (cache: CoordinateCache)
        ensures
            cache@ == Map::<Seq<char>, Coordinates>::empty(),
            cache.stored().len() == 0,
    {
        let cache = CoordinateCache { entries: Vec::new() };
        assert(cache@ =~= Map::<Seq<char>, Coordinates>::empty());
        cache
    }

    /// How many entries are stored.
    pub fn len(&self) -> (n: usize)
        ensures
            n == self.stored().len(),
    {
        self.entries.len()
    }

    /// The `i`-th stored entry, for writing the cache out.
    pub fn entry(&self, i: usize) -> (e: &CoordinateEntry)
        requires
            i < self.stored().len(),
        ensures
            *e == self.stored()[i as int],
            self@.contains_key(e.address@),
    {
        assert(self.holds(i as int, self.entries[i as int].address@));
        &self.entries[i]
    }

    /// The position stored for `address`, if any.
    pub fn get(&self, address: &str) -> (found: Option<Coordinates>)
        ensures
            found == (if self@.contains_key(address@) {
                Some(self@[address@])
            } else {
                None
            }),
    {
        let key = address.to_owned();
        let mut i: usize = 0;
        while i < self.entries.len()
            invariant
                i <= self.entries.len(),
                key@ == address@,
                forall|j: int| 0 <= j < i ==> !self.holds(j, address@),
            decreases self.entries.len() - i,
        {
            if self.entries[i].address == key {
                proof {
                    assert(self.first(i as int, address@));
                    let c = choose|c: int| self.first(c, address@);
                    assert(self.holds(c, address@));
                    assert(c == i);
                }
                return Some(self.entries[i].coordinates);
            }
            i += 1;
        }
        None
    }

    /// Stores `coordinates` under `address` unless the address already has a
    /// position; an existing entry is never overwritten.
    pub fn set_if_absent(&mut self, address: &str, coordinates: Coordinates)
        ensures
            final(self)@ == write_once(old(self)@, address@, coordinates),
            old(self)@.contains_key(address@) ==> final(self).stored() == old(self).stored(),
            !old(self)@.contains_key(address@) ==> {
                &&& final(self).stored().len() == old(self).stored().len() + 1
                &&& final(self).stored().drop_last() == old(self).stored()
                &&& final(self).stored().last().address@ == address@
                &&& final(self).stored().last().coordinates == coordinates
            },
    {
        if self.get(address).is_none() {
            let ghost before = *self;
            self.entries.push(CoordinateEntry { address: address.to_owned(), coordinates });
            proof {
                let n = before.entries.len() as int;
                assert forall|j: int| 0 <= j < n implies !self.holds(j, address@) by {
                    if self.holds(j, address@) {
                        assert(before.holds(j, address@));
                    }
                }
                assert(self.first(n, address@));
                assert forall|k: Seq<char>| #[trigger] self@.contains_key(k) implies before@.insert(
                    address@,
                    coordinates,
                ).contains_key(k) && self@[k] == before@.insert(address@, coordinates)[k] by {
                    let i = choose|i: int| self.holds(i, k);
                    self.lemma_first_exists(i, k);
                    let c = choose|c: int| self.first(c, k);
                    if k != address@ {
                        assert(before.holds(c, k));
                        before.lemma_first_exists(c, k);
                        let d = choose|d: int| before.first(d, k);
                        assert(self.holds(d, k));
                        assert(before.holds(c, k));
                        assert(c == d);
                    } else {
                        assert(self.holds(n, k));
                        assert(c == n);
                    }
                }
                assert forall|k: Seq<char>| #[trigger] before@.contains_key(k) implies self@.contains_key(
                    k,
                ) by {
                    let i = choose|i: int| before.holds(i, k);
                    assert(self.holds(i, k));
                }
                assert(self.holds(n, address@));
                assert(self@ =~= before@.insert(address@, coordinates));
            }
        }
    }
}

/// What a remembered travel time is filed under: where the trip starts,
/// where it ends, and how it is travelled.
pub type RouteKey = (Seq<char>, Seq<char>, TransportationMode);

/// One remembered travel time, in seconds.
#[derive(Clone, Debug, PartialEq, Eq)]
pub struct DurationEntry {
    pub origin: String,
    pub destination: String,
    pub mode: TransportationMode,
    pub seconds: usize,
}

impl DurationEntry {
    /// The key this entry is filed under.
    pub open spec fn key(&self) -> RouteKey {
        (self.origin@, self.destination@, self.mode)
    }
}

/// Travel times by origin address, destination address and mode.
pub struct DurationCache {
    entries: Vec<DurationEntry>,
}

impl DurationCache {
    spec fn holds(&self, i: int, key: RouteKey) -> bool {
        0 <= i < self.entries.len() && self.entries[i].key() == key
    }

    spec fn first(&self, i: int, key: RouteKey) -> bool {
        self.holds(i, key) && forall|j: int| 0 <= j < i ==> !self.holds(j, key)
    }

    /// The cache as a map from route to the travel time stored first.
    pub closed spec fn view(&self) -> Map<RouteKey, usize> {
        Map::new(
            |key: RouteKey| exists|i: int| self.holds(i, key),
            |key: RouteKey| self.entries[choose|i: int| self.first(i, key)].seconds,
        )
    }

    /// The entries in the order they were stored.
    pub closed spec fn stored(&self) -> Seq<DurationEntry> {
        self.entries@
    }

    proof fn lemma_first_exists(&self, i: int, key: RouteKey)
        requires
            self.holds(i, key),
        ensures
            exists|c: int| self.first(c, key),
        decreases i,
    {
        if exists|j: int| 0 <= j < i && self.holds(j, key) {
            let j = choose|j: int| 0 <= j < i && self.holds(j, key);
            self.lemma_first_exists(j, key);
        } else {
            assert(self.first(i, key));
        }
    }

    /// An empty cache.
    pub fn new() -> (cache: DurationCache)
        ensures
            cache@ == Map::<RouteKey, usize>::empty(),
            cache.stored().len() == 0,
    {
        let cache = DurationCache { entries: Vec::new() };
        assert(cache@ =~= Map::<RouteKey, usize>::empty());
        cache
    }

    /// How many entries are stored.
    pub fn len(&self) -> (n: usize)
        ensures
            n == self.stored().len(),
    {
        self.entries.len()
    }

    /// The `i`-th stored entry, for writing the cache out.
    pub fn entry(&self, i: usize) -> (e: &DurationEntry)
        requires
            i < self.stored().len(),
        ensures
            *e == self.stored()[i as int],
            self@.contains_key(e.key()),
    {
        assert(self.holds(i as int, self.entries[i as int].key()));
        &self.entries[i]
    }

    /// The travel time stored for the route, if any.
    pub fn get(&self, origin: &str, destination: &str, mode: TransportationMode) -> (found: Option<
        usize,
    >)
        ensures
            found == (if self@.contains_key((origin@, destination@, mode)) {
                Some(self@[(origin@, destination@, mode)])
            } else {
                None
            }),
    {
        let from = origin.to_owned();
        let to = destination.to_owned();
        let ghost key: RouteKey = (origin@, destination@, mode);
        let mut i: usize = 0;
        while i < self.entries.len()
            invariant
                i <= self.entries.len(),
                from@ == origin@,
                to@ == destination@,
                key == (origin@, destination@, mode),
                forall|j: int| 0 <= j < i ==> !self.holds(j, key),
            decreases self.entries.len() - i,
        {
            let e = &self.entries[i];
            if e.mode == mode && e.origin == from && e.destination == to {
                proof {
                    assert(self.first(i as int, key));
                    let c = choose|c: int| self.first(c, key);
                    assert(self.holds(c, key));
                    assert(c == i);
                }
                return Some(e.seconds);
            }
            i += 1;
        }
        None
    }

    /// Stores `seconds` for the route unless the route already has a travel
    /// time; an existing entry is never overwritten.
    pub fn set_if_absent(
        &mut self,
        origin: &str,
        destination: &str,
        mode: TransportationMode,
        seconds: usize,
    )
        ensures
            final(self)@ == write_once(old(self)@, (origin@, destination@, mode), seconds),
            old(self)@.contains_key((origin@, destination@, mode)) ==> final(self).stored() == old(
                self,
            ).stored(),
            !old(self)@.contains_key((origin@, destination@, mode)) ==> {
                &&& final(self).stored().len() == old(self).stored().len() + 1
                &&& final(self).stored().drop_last() == old(self).stored()
                &&& final(self).stored().last().key() == (origin@, destination@, mode)
                &&& final(self).stored().last().seconds == seconds
            },
    {
        if self.get(origin, destination, mode).is_none() {
            let ghost before = *self;
            let ghost key: RouteKey = (origin@, destination@, mode);
            self.entries.push(
                DurationEntry {
                    origin: origin.to_owned(),
                    destination: destination.to_owned(),
                    mode,
                    seconds,
                },
            );
            proof {
                let n = before.entries.len() as int;
                assert forall|j: int| 0 <= j < n implies !self.holds(j, key) by {
                    if self.holds(j, key) {
                        assert(before.holds(j, key));
                    }
                }
                assert(self.first(n, key));
                assert forall|k: RouteKey| #[trigger] self@.contains_key(k) implies before@.insert(
                    key,
                    seconds,
                ).contains_key(k) && self@[k] == before@.insert(key, seconds)[k] by {
                    let i = choose|i: int| self.holds(i, k);
                    self.lemma_first_exists(i, k);
                    let c = choose|c: int| self.first(c, k);
                    if k != key {
                        assert(before.holds(c, k));
                        before.lemma_first_exists(c, k);
                        let d = choose|d: int| before.first(d, k);
                        assert(self.holds(d, k));
                        assert(c == d);
                    } else {
                        assert(self.holds(n, k));
                        assert(c == n);
                    }
                }
                assert forall|k: RouteKey| #[trigger] before@.contains_key(k) implies self@.contains_key(
                    k,
                ) by {
                    let i = choose|i: int| before.holds(i, k);
                    assert(self.holds(i, k));
                }
                assert(self.holds(n, key));
                assert(self@ =~= before@.insert(key, seconds));
            }
        }
    }
}

} // verus!
