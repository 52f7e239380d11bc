//! The records the resolution engine works on.

use crate::color::{is_hex_color, random_color};
use std::collections::HashMap;
use vstd::prelude::*;

verus! {

broadcast use vstd::std_specs::hash::group_hash_axioms;

/// How the traveller gets from a building to a reference address.
#[derive(Clone, Copy, Debug, PartialEq, Eq, Structural)]
pub enum TransportationMode {
    Cycling,
    Driving,
    Walking,
    Public,
}

/// A geographic position. Each component is the bit pattern of the IEEE 754
/// double the providers exchange; the engine carries positions, it never
/// computes with them.
#[derive(Clone, Copy, Debug, PartialEq, Eq, Structural)]
pub struct Coordinates {
    pub longitude_bits: u64,
    pub latitude_bits: u64,
}

/// One listing inside a building; carried through unchanged.
#[derive(Clone, Debug, PartialEq, Eq)]
pub struct Apartment {
    pub rent: String,
    pub fees: Option<String>,
    pub id: u64,
    pub deposit: Option<String>,
    pub key_money: Option<String>,
    pub kind: String,
    pub area: String,
    pub plan: String,
    pub url: String,
}

/// A reachability requirement: a reference address, a way of travelling and
/// a time budget in minutes.
#[derive(Clone, Debug, PartialEq, Eq)]
pub struct Criterion {
    pub mode: TransportationMode,
    pub address: String,
    pub time: usize,
    pub color: String,
    pub location: Coordinates,
}

impl Criterion {
    /// The time budget is positive.
    pub open spec fn well_formed(&self) -> bool {
        0 < self.time
    }

    /// Whether the time budget is positive.
    pub fn is_well_formed(&self) -> (valid: bool)
        ensures
            valid == self.well_formed(),
    {
        self.time > 0
    }

    /// The time budget in seconds.
    pub open spec fn budget_seconds(&self) -> int {
        self.time * 60
    }

    /// This criterion once its address has been located.
    pub open spec fn located_at(self, location: Coordinates) -> Criterion {
        Criterion {
            mode: self.mode,
            address: self.address,
            time: self.time,
            color: self.color,
            location,
        }
    }

    /// A criterion with a freshly drawn display color and no location yet.
    /// `None` where the budget is zero minutes.
    pub fn new(mode: TransportationMode, address: String, time: usize) -> (made: Option<Criterion>)
        ensures
            made is Some == (0 < time),
            made matches Some(c) ==> {
                &&& c.mode == mode
                &&& c.address == address
                &&& c.time == time
                &&& is_hex_color(c.color@)
                &&& c.location == (Coordinates { longitude_bits: 0, latitude_bits: 0 })
                &&& c.well_formed()
            },
    {
        if time == 0 {
            None
        } else {
            Some(
                Criterion {
                    mode,
                    address,
                    time,
                    color: random_color(),
                    location: Coordinates { longitude_bits: 0, latitude_bits: 0 },
                },
            )
        }
    }

    /// A copy of this criterion, as stored with a building it admits.
    pub fn snapshot(&self) -> (copy: Criterion)
        ensures
            copy == *self,
    {
        Criterion {
            mode: self.mode,
            address: self.address.clone(),
            time: self.time,
            color: self.color.clone(),
            location: self.location,
        }
    }

    /// Whether a trip of `seconds` fits this criterion's budget. A trip that
    /// takes exactly the budget fits.
    pub fn admits(&self, seconds: usize) -> (fits: bool)
        ensures
            fits == within_budget(seconds, self.time),
    {
        (seconds as u128) <= (self.time as u128) * 60
    }
}

/// The admission rule: the trip takes no longer than the budget of
/// `minutes`, the boundary included.
pub open spec fn within_budget(seconds: usize, minutes: usize) -> bool {
    seconds <= minutes * 60
}

/// A listed building with the criteria under which it was found reachable,
/// keyed by the criterion's position in the criteria list.
#[derive(Clone, Debug, PartialEq, Eq)]
pub struct Building {
    pub name: String,
    pub address: String,
    pub coordinates: Coordinates,
    pub times: HashMap<usize, (Criterion, usize)>,
    pub apartments: Vec<Apartment>,
}

/// A building as the contracts see it.
pub struct BuildingView {
    pub name: Seq<char>,
    pub address: Seq<char>,
    pub coordinates: Coordinates,
    pub times: Map<usize, (Criterion, usize)>,
    pub apartments: Seq<Apartment>,
}

impl BuildingView {
    /// The building after a trip of `seconds` under criterion number `index`
    /// has been put to the admission rule: recorded where it fits the budget,
    /// unchanged where it does not.
    pub open spec fn screen(self, index: usize, criterion: Criterion, seconds: usize) -> BuildingView {
        if within_budget(seconds, criterion.time) {
            BuildingView { times: self.times.insert(index, (criterion, seconds)), ..self }
        } else {
            self
        }
    }

    /// The building shows in the reachable views of `count` criteria: it has
    /// a record at all, and it has one under each of the first `count`
    /// criteria. A building without any record is never shown, not even
    /// where there are no criteria.
    pub open spec fn reachable_under_all(self, count: nat) -> bool {
        self.times.len() > 0 && forall|i: usize| i < count ==> self.times.contains_key(i)
    }
}

impl View for Building {
    type V = BuildingView;

    open spec fn view(&self) -> BuildingView {
        BuildingView {
            name: self.name@,
            address: self.address@,
            coordinates: self.coordinates,
            times: self.times@,
            apartments: self.apartments@,
        }
    }
}

impl Building {
    /// A building not yet found reachable under any criterion.
    pub fn new(name: String, address: String, coordinates: Coordinates, apartments: Vec<Apartment>) -> (b:
        Building)
        ensures
            b@ == (BuildingView {
                name: name@,
                address: address@,
                coordinates,
                times: Map::<usize, (Criterion, usize)>::empty(),
                apartments: apartments@,
            }),
    {
        Building { name, address, coordinates, times: HashMap::new(), apartments }
    }

    /// The reachability filter: records the building as reachable under
    /// criterion number `index` where a trip of `seconds` fits the criterion's
    /// budget, and says whether it did.
    pub fn screen(&mut self, index: usize, criterion: &Criterion, seconds: usize) -> (admitted: bool)
        ensures
            admitted == within_budget(seconds, criterion.time),
            final(self)@ == old(self)@.screen(index, *criterion, seconds),
    {
        if criterion.admits(seconds) {
            self.times.insert(index, (criterion.snapshot(), seconds));
            true
        } else {
            false
        }
    }

    /// The travel time recorded under criterion number `index`, if the
    /// building was found reachable under it.
    pub fn time_under(&self, index: usize) -> (seconds: Option<usize>)
        ensures
            seconds == (if self@.times.contains_key(index) {
                Some(self@.times[index].1)
            } else {
                None
            }),
    {
        match self.times.get(&index) {
            Some(entry) => Some(entry.1),
            None => None,
        }
    }

    /// Whether the building shows in the reachable views of `count` criteria:
    /// it must have a record under each of them, and it must have a record
    /// at all, so that a building with an empty mapping is left out even
    /// where there are no criteria.
    pub fn is_reachable_under_all(&self, count: usize) -> (all: bool)
        ensures
            all == self@.reachable_under_all(count as nat),
    {
        if self.times.len() == 0 {
            return false;
        }
        let mut i: usize = 0;
        while i < count
            invariant
                i <= count,
                self@.times.len() > 0,
                forall|j: usize| j < i ==> self@.times.contains_key(j),
            decreases count - i,
        {
            if !self.times.contains_key(&i) {
                assert(!self@.times.contains_key(i));
                return false;
            }
            i += 1;
        }
        true
    }
}

} // verus!
