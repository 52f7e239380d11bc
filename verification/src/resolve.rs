//! The resolution orchestrator, as a machine that the caller drives.
//!
//! The machine decides; the caller talks to the providers. `next_action`
//! works through the criteria in order for as long as the caches can serve
//! it and stops at the first thing only a provider can answer: a geocoding
//! lookup or a routing-matrix request. The caller performs it and hands the
//! answer to `on_geocode` or `on_route`, then asks for the next action.

use crate::batch::{
    batch_limit, chunk_end, next_chunk_end, provider_mode, spec_batch_limit, spec_provider_mode,
    MatrixRequest, MatrixRequestView,
};
use crate::cache::{write_once, CoordinateCache, DurationCache, RouteKey};
use crate::error::Error;
use crate::geocode::{decode_geocode, geocoded};
use crate::model::{Building, BuildingView, Coordinates, Criterion};
use crate::rows::{decode_matrix, lemma_destinations_in_chunk, matrix_times, rows_of, RouteTime};
use vstd::prelude::*;

verus! {

/// What the caller is asked to do next.
#[derive(Debug, PartialEq, Eq)]
pub enum Action {
    /// Ask the geocoding provider for this address and answer with
    /// `on_geocode`.
    Geocode { address: String },
    /// Send this routing-matrix request and answer with `on_route`.
    Route(MatrixRequest),
    /// Every criterion has been worked through.
    Finished,
}

/// An action as the contracts see it.
pub enum ActionView {
    Geocode { address: Seq<char> },
    Route(MatrixRequestView),
    Finished,
}

impl View for Action {
    type V = ActionView;

    open spec fn view(&self) -> ActionView {
        match self {
            Action::Geocode { address } => ActionView::Geocode { address: address@ },
            Action::Route(request) => ActionView::Route(request@),
            Action::Finished => ActionView::Finished,
        }
    }
}

/// The views of a run of buildings.
pub open spec fn building_views(buildings: Seq<Building>) -> Seq<BuildingView> {
    Seq::new(buildings.len(), |k: int| buildings[k]@)
}

/// The key a trip from `criterion`'s address to `building` is cached under.
pub open spec fn route_key(criterion: Criterion, building: BuildingView) -> RouteKey {
    (criterion.address@, building.address, criterion.mode)
}

/// One building after the cache pass for criterion number `index`: a cached
/// duration is put to the admission rule, a missing one changes nothing.
pub open spec fn scan_one(
    building: BuildingView,
    index: usize,
    criterion: Criterion,
    durations: Map<RouteKey, usize>,
) -> BuildingView {
    let key = route_key(criterion, building);
    if durations.contains_key(key) {
        building.screen(index, criterion, durations[key])
    } else {
        building
    }
}

/// All buildings after the cache pass for criterion number `index`.
pub open spec fn scanned(
    buildings: Seq<BuildingView>,
    index: usize,
    criterion: Criterion,
    durations: Map<RouteKey, usize>,
) -> Seq<BuildingView> {
    Seq::new(buildings.len(), |k: int| scan_one(buildings[k], index, criterion, durations))
}

/// The positions of the buildings that have no cached duration for
/// `criterion`, in building order.
pub open spec fn uncached(
    buildings: Seq<BuildingView>,
    criterion: Criterion,
    durations: Map<RouteKey, usize>,
) -> Seq<usize>
    decreases buildings.len(),
{
    if buildings.len() == 0 {
        Seq::empty()
    } else {
        let rest = uncached(buildings.drop_last(), criterion, durations);
        if durations.contains_key(route_key(criterion, buildings.last())) {
            rest
        } else {
            rest.push((buildings.len() - 1) as usize)
        }
    }
}

/// Every criterion has a positive time budget.
pub open spec fn all_well_formed(criteria: Seq<Criterion>) -> bool {
    forall|j: int| 0 <= j < criteria.len() ==> (#[trigger] criteria[j]).well_formed()
}

/// Whether every criterion has a positive time budget.
pub fn are_well_formed(criteria: &Vec<Criterion>) -> (valid: bool)
    ensures
        valid == all_well_formed(criteria@),
{
    let mut j: usize = 0;
    while j < criteria.len()
        invariant
            j <= criteria.len(),
            forall|i: int| 0 <= i < j ==> (#[trigger] criteria[i]).well_formed(),
        decreases criteria.len() - j,
    {
        if !criteria[j].is_well_formed() {
            return false;
        }
        j += 1;
    }
    true
}

/// The machine as the contracts see it.
pub struct ResolutionView {
    /// The criteria in the user's order; those worked through carry their
    /// location.
    pub criteria: Seq<Criterion>,
    pub buildings: Seq<BuildingView>,
    pub coordinates: Map<Seq<char>, Coordinates>,
    pub durations: Map<RouteKey, usize>,
    pub departure: Seq<char>,
    /// The number of the criterion being worked on.
    pub current: nat,
    /// Whether the current criterion has been located and scanned, so that
    /// only routing is left for it.
    pub routing: bool,
    /// The positions of the buildings the current criterion has to route.
    pub pending: Seq<usize>,
    /// How many of `pending` have been answered.
    pub sent: nat,
}

impl ResolutionView {
    /// The machine's invariant.
    pub open spec fn well_formed(self) -> bool {
        &&& self.current <= self.criteria.len() <= usize::MAX
        &&& self.buildings.len() <= usize::MAX
        &&& all_well_formed(self.criteria)
        &&& self.routing ==> self.current < self.criteria.len()
        &&& self.sent <= self.pending.len()
        &&& forall|k: int| 0 <= k < self.pending.len() ==> #[trigger] self.pending[k] < self.buildings.len()
        &&& !self.routing ==> self.pending.len() == 0 && self.sent == 0
    }

    /// The machine waits for the location of the current criterion.
    pub open spec fn awaits_location(self) -> bool {
        self.current < self.criteria.len() && !self.routing
    }

    /// The machine waits for the answer to a routing-matrix request.
    pub open spec fn awaits_route(self) -> bool {
        self.routing && self.sent < self.pending.len()
    }

    /// Where the chunk that is to be sent next ends within `pending`.
    pub open spec fn chunk_stop(self) -> int {
        chunk_end(
            self.sent as int,
            self.pending.len() as int,
            spec_batch_limit(self.criteria[self.current as int].mode) as int,
        )
    }

    /// The request for the chunk that is to be sent next.
    pub open spec fn request(self) -> MatrixRequestView {
        MatrixRequestView {
            origin: self.criteria[self.current as int].location,
            destinations: Seq::new(
                (self.chunk_stop() - self.sent) as nat,
                |k: int| self.buildings[self.pending[self.sent + k] as int].coordinates,
            ),
            travel_mode: spec_provider_mode(self.criteria[self.current as int].mode),
            departure_time: self.departure,
        }
    }

    /// The machine once the current criterion has been located at
    /// `location`: the criterion carries the location, every building has
    /// had its cached duration put to the admission rule, and the buildings
    /// without one are pending.
    pub open spec fn located(self, location: Coordinates) -> ResolutionView {
        let criterion = self.criteria[self.current as int].located_at(location);
        ResolutionView {
            criteria: self.criteria.update(self.current as int, criterion),
            buildings: scanned(self.buildings, self.current as usize, criterion, self.durations),
            routing: true,
            pending: uncached(self.buildings, criterion, self.durations),
            sent: 0,
            ..self
        }
    }

    /// The machine once the current criterion is done with.
    pub open spec fn moved_on(self) -> ResolutionView {
        ResolutionView {
            current: self.current + 1,
            routing: false,
            pending: Seq::empty(),
            sent: 0,
            ..self
        }
    }

    /// The machine run forward to the next thing it needs from outside, and
    /// that thing.
    pub open spec fn advance(self) -> (ResolutionView, ActionView)
        decreases self.criteria.len() - self.current, (if self.routing { 0int } else { 1int }),
    {
        if self.current >= self.criteria.len() {
            (self, ActionView::Finished)
        } else if !self.routing {
            let address = self.criteria[self.current as int].address@;
            if self.coordinates.contains_key(address) {
                self.located(self.coordinates[address]).advance()
            } else {
                (self, ActionView::Geocode { address })
            }
        } else if self.sent < self.pending.len() {
            (self, ActionView::Route(self.request()))
        } else {
            self.moved_on().advance()
        }
    }

    /// The machine after one travel time of the awaited answer has been
    /// taken in: the duration is cached under the trip's key unless the key
    /// has one, and the building is put to the admission rule with the
    /// duration of the row.
    pub open spec fn record_time(self, time: RouteTime) -> ResolutionView {
        let criterion = self.criteria[self.current as int];
        let position = self.pending[self.sent + time.destination] as int;
        let building = self.buildings[position];
        ResolutionView {
            durations: write_once(self.durations, route_key(criterion, building), time.seconds),
            buildings: self.buildings.update(
                position,
                building.screen(self.current as usize, criterion, time.seconds),
            ),
            ..self
        }
    }

    /// The machine after the travel times of the awaited answer have been
    /// taken in, in order.
    pub open spec fn record_times(self, times: Seq<RouteTime>) -> ResolutionView
        decreases times.len(),
    {
        if times.len() == 0 {
            self
        } else {
            self.record_times(times.drop_last()).record_time(times.last())
        }
    }

    /// The machine after the awaited chunk has been answered with `times`.
    pub open spec fn chunk_answered(self, times: Seq<RouteTime>) -> ResolutionView {
        ResolutionView { sent: self.chunk_stop() as nat, ..self.record_times(times) }
    }

    /// Every travel time names a destination of the awaited chunk.
    pub open spec fn answers_chunk(self, times: Seq<RouteTime>) -> bool {
        forall|i: int|
            0 <= i < times.len() ==> (#[trigger] times[i]).destination < self.chunk_stop() - self.sent
    }
}

/// The resolution of one set of criteria against one set of buildings.
pub struct Resolution {
    criteria: Vec<Criterion>,
    buildings: Vec<Building>,
    coordinates: CoordinateCache,
    durations: DurationCache,
    departure: String,
    current: usize,
    routing: bool,
    pending: Vec<usize>,
    sent: usize,
}

impl View for Resolution {
    type V = ResolutionView;

    closed spec fn view(&self) -> ResolutionView {
        ResolutionView {
            criteria: self.criteria@,
            buildings: building_views(self.buildings@),
            coordinates: self.coordinates@,
            durations: self.durations@,
            departure: self.departure@,
            current: self.current as nat,
            routing: self.routing,
            pending: self.pending@,
            sent: self.sent as nat,
        }
    }
}

/// The cache pass of one criterion: every building with a cached duration
/// is put to the admission rule, and the positions of the others are handed
/// back in building order.
pub fn scan(
    buildings: &mut Vec<Building>,
    index: usize,
    criterion: &Criterion,
    durations: &DurationCache,
) -> (pending: Vec<usize>)
    ensures
        building_views(final(buildings)@) == scanned(
            building_views(old(buildings)@),
            index,
            *criterion,
            durations@,
        ),
        pending@ == uncached(building_views(old(buildings)@), *criterion, durations@),
        forall|k: int| 0 <= k < pending.len() ==> #[trigger] pending[k] < old(buildings).len(),
{
    let ghost before = building_views(buildings@);
    let mut pending: Vec<usize> = Vec::new();
    let mut k: usize = 0;
    while k < buildings.len()
        invariant
            k <= buildings.len(),
            buildings.len() == before.len(),
            forall|j: int|
                0 <= j < k ==> (#[trigger] buildings[j])@ == scan_one(
                    before[j],
                    index,
                    *criterion,
                    durations@,
                ),
            forall|j: int| k <= j < buildings.len() ==> (#[trigger] buildings[j])@ == before[j],
            pending@ == uncached(before.take(k as int), *criterion, durations@),
            forall|i: int| 0 <= i < pending.len() ==> #[trigger] pending[i] < k,
        decreases buildings.len() - k,
    {
        let found = durations.get(
            criterion.address.as_str(),
            buildings[k].address.as_str(),
            criterion.mode,
        );
        proof {
            assert(before.take(k + 1).drop_last() =~= before.take(k as int));
            assert(before.take(k + 1).last() == before[k as int]);
        }
        match found {
            Some(seconds) => {
                buildings[k].screen(index, criterion, seconds);
            },
            None => {
                pending.push(k);
            },
        }
        k += 1;
    }
    proof {
        assert(before.take(k as int) =~= before);
        assert(building_views(buildings@) =~= scanned(before, index, *criterion, durations@));
    }
    pending
}

impl Resolution {
    /// A machine at the first criterion, with nothing scanned yet. Every
    /// criterion must have a positive time budget.
    pub fn new(
        criteria: Vec<Criterion>,
        buildings: Vec<Building>,
        coordinates: CoordinateCache,
        durations: DurationCache,
        departure: String,
    ) -> (machine: Resolution)
        requires
            all_well_formed(criteria@),
        ensures
            machine@ == (ResolutionView {
                criteria: criteria@,
                buildings: building_views(buildings@),
                coordinates: coordinates@,
                durations: durations@,
                departure: departure@,
                current: 0,
                routing: false,
                pending: Seq::empty(),
                sent: 0,
            }),
            machine@.well_formed(),
    {
        assert(criteria@.len() == criteria.len() && buildings@.len() == buildings.len());
        Resolution {
            criteria,
            buildings,
            coordinates,
            durations,
            departure,
            current: 0,
            routing: false,
            pending: Vec::new(),
            sent: 0,
        }
    }

    /// The criteria; those worked through carry their location.
    pub fn criteria(&self) -> (criteria: &Vec<Criterion>)
        ensures
            criteria@ == self@.criteria,
    {
        &self.criteria
    }

    /// The buildings with the reachability found so far.
    pub fn buildings(&self) -> (buildings: &Vec<Building>)
        ensures
            building_views(buildings@) == self@.buildings,
    {
        &self.buildings
    }

    /// The coordinate cache with what the run has added.
    pub fn coordinates(&self) -> (cache: &CoordinateCache)
        ensures
            cache@ == self@.coordinates,
    {
        &self.coordinates
    }

    /// The duration cache with what the run has added.
    pub fn durations(&self) -> (cache: &DurationCache)
        ensures
            cache@ == self@.durations,
    {
        &self.durations
    }

    /// Whether the machine waits for the location of the current criterion.
    pub fn awaits_location(&self) -> (waits: bool)
        ensures
            waits == self@.awaits_location(),
    {
        self.current < self.criteria.len() && !self.routing
    }

    /// Whether the machine waits for the answer to a routing-matrix request.
    pub fn awaits_route(&self) -> (waits: bool)
        ensures
            waits == self@.awaits_route(),
    {
        self.routing && self.sent < self.pending.len()
    }

    /// Takes the machine apart: criteria, buildings and both caches.
    pub fn finish(self) -> (parts: (Vec<Criterion>, Vec<Building>, CoordinateCache, DurationCache))
        ensures
            parts.0@ == self@.criteria,
            building_views(parts.1@) == self@.buildings,
            parts.2@ == self@.coordinates,
            parts.3@ == self@.durations,
    {
        (self.criteria, self.buildings, self.coordinates, self.durations)
    }

    /// Locates the current criterion and runs its cache pass.
    fn locate(&mut self, location: Coordinates)
        requires
            old(self)@.well_formed(),
            old(self)@.awaits_location(),
        ensures
            final(self)@ == old(self)@.located(location),
            final(self)@.well_formed(),
    {
        let mut criterion = self.criteria[self.current].snapshot();
        criterion.location = location;
        let pending = scan(&mut self.buildings, self.current, &criterion, &self.durations);
        self.criteria.set(self.current, criterion);
        self.pending = pending;
        self.sent = 0;
        self.routing = true;
    }

    /// Builds the request for the chunk that is to be sent next.
    fn build_request(&self) -> (request: MatrixRequest)
        requires
            self@.well_formed(),
            self@.awaits_route(),
        ensures
            request@ == self@.request(),
    {
        let criterion = &self.criteria[self.current];
        let stop = next_chunk_end(self.sent, self.pending.len(), batch_limit(criterion.mode));
        let mut destinations: Vec<Coordinates> = Vec::new();
        let mut k: usize = self.sent;
        while k < stop
            invariant
                self.sent <= k <= stop <= self.pending.len(),
                self@.well_formed(),
                destinations.len() == k - self.sent,
                forall|j: int|
                    0 <= j < destinations.len() ==> #[trigger] destinations[j]
                        == self.buildings[self.pending[self.sent + j] as int].coordinates,
            decreases stop - k,
        {
            let position = self.pending[k];
            assert(self@.pending[k as int] < self@.buildings.len());
            destinations.push(self.buildings[position].coordinates);
            k += 1;
        }
        let request = MatrixRequest {
            origin: criterion.location,
            destinations,
            travel_mode: provider_mode(criterion.mode).to_owned(),
            departure_time: self.departure.clone(),
        };
        proof {
            assert(request@.destinations =~= self@.request().destinations);
        }
        request
    }

    /// Runs the machine forward to the next thing it needs from outside and
    /// says what that is. Criteria whose address is in the coordinate cache
    /// and whose trips are all in the duration cache are worked through on
    /// the way without asking for anything.
    pub fn next_action(&mut self) -> (action: Action)
        requires
            old(self)@.well_formed(),
        ensures
            (final(self)@, action@) == old(self)@.advance(),
            final(self)@.well_formed(),
            final(self)@.coordinates == old(self)@.coordinates,
            final(self)@.durations == old(self)@.durations,
            match action@ {
                ActionView::Geocode { address } => {
                    &&& final(self)@.awaits_location()
                    &&& address == final(self)@.criteria[final(self)@.current as int].address@
                    &&& !final(self)@.coordinates.contains_key(address)
                },
                ActionView::Route(request) => {
                    &&& final(self)@.awaits_route()
                    &&& request == final(self)@.request()
                },
                ActionView::Finished => final(self)@.current == final(self)@.criteria.len(),
            },
    {
        loop
            invariant
                self@.well_formed(),
                self@.advance() == old(self)@.advance(),
                self@.coordinates == old(self)@.coordinates,
                self@.durations == old(self)@.durations,
            decreases self.criteria.len() - self.current, (if self.routing { 0int } else { 1int }),
        {
            if self.current >= self.criteria.len() {
                return Action::Finished;
            }
            if !self.routing {
                let found = self.coordinates.get(self.criteria[self.current].address.as_str());
                match found {
                    Some(location) => {
                        self.locate(location);
                    },
                    None => {
                        return Action::Geocode { address: self.criteria[self.current].address.clone() };
                    },
                }
            } else if self.sent < self.pending.len() {
                return Action::Route(self.build_request());
            } else {
                self.current = self.current + 1;
                self.routing = false;
                self.pending = Vec::new();
                self.sent = 0;
            }
        }
    }

    /// Takes in the geocoding provider's answer for the current criterion's
    /// address. A usable answer is remembered in the coordinate cache, so
    /// that the next action no longer asks for the address; a failed one
    /// changes nothing.
    pub fn on_geocode(&mut self, body: &str) -> (r: Result<(), Error>)
        requires
            old(self)@.well_formed(),
            old(self)@.awaits_location(),
        ensures
            final(self)@.well_formed(),
            match geocoded(body@) {
                Ok(fetched) => {
                    &&& r == Ok::<(), Error>(())
                    &&& final(self)@ == (ResolutionView {
                        coordinates: write_once(
                            old(self)@.coordinates,
                            old(self)@.criteria[old(self)@.current as int].address@,
                            fetched,
                        ),
                        ..old(self)@
                    })
                    &&& final(self)@.coordinates.contains_key(
                        old(self)@.criteria[old(self)@.current as int].address@,
                    )
                },
                Err(e) => r == Err::<(), Error>(e) && final(self)@ == old(self)@,
            },
    {
        match decode_geocode(body) {
            Ok(fetched) => {
                self.coordinates.set_if_absent(self.criteria[self.current].address.as_str(), fetched);
                Ok(())
            },
            Err(e) => Err(e),
        }
    }

    /// Takes in travel times for the awaited chunk: each is cached under its
    /// trip's key unless the key has a duration already, and its building is
    /// put to the admission rule. The chunk then counts as answered.
    pub fn record_times(&mut self, times: &Vec<RouteTime>)
        requires
            old(self)@.well_formed(),
            old(self)@.awaits_route(),
            old(self)@.answers_chunk(times@),
        ensures
            final(self)@ == old(self)@.chunk_answered(times@),
            final(self)@.well_formed(),
    {
        let criterion = self.criteria[self.current].snapshot();
        let stop = next_chunk_end(self.sent, self.pending.len(), batch_limit(criterion.mode));
        let ghost start = self@;
        let mut i: usize = 0;
        while i < times.len()
            invariant
                i <= times.len(),
                start.well_formed(),
                start.awaits_route(),
                start.answers_chunk(times@),
                stop == start.chunk_stop(),
                criterion == start.criteria[start.current as int],
                self@ == start.record_times(times@.take(i as int)),
                self@.criteria == start.criteria,
                self@.pending == start.pending,
                self@.sent == start.sent,
                self@.current == start.current,
                self@.routing == start.routing,
                self@.buildings.len() == start.buildings.len(),
            decreases times.len() - i,
        {
            let time = times[i];
            proof {
                assert(times@.take(i + 1).drop_last() =~= times@.take(i as int));
                assert(times@.take(i + 1).last() == times@[i as int]);
                assert(time.destination < stop - self.sent);
                assert(self@.pending[self.sent + time.destination] < self@.buildings.len());
            }
            let position = self.pending[self.sent + time.destination];
            let destination = self.buildings[position].address.clone();
            let ghost views = building_views(self.buildings@);
            self.durations.set_if_absent(
                criterion.address.as_str(),
                destination.as_str(),
                criterion.mode,
                time.seconds,
            );
            self.buildings[position].screen(self.current, &criterion, time.seconds);
            proof {
                assert(building_views(self.buildings@) =~= views.update(
                    position as int,
                    views[position as int].screen(self.current, criterion, time.seconds),
                ));
            }
            i += 1;
        }
        proof {
            assert(times@.take(i as int) =~= times@);
        }
        self.sent = stop;
    }

    /// Takes in the routing provider's answer for the awaited chunk. A
    /// usable answer is recorded as `record_times` says; an answer with a
    /// failure status, a malformed body or a row in error changes nothing,
    /// so that the chunk is still awaited.
    pub fn on_route(&mut self, status: u16, body: &str) -> (r: Result<(), Error>)
        requires
            old(self)@.well_formed(),
            old(self)@.awaits_route(),
        ensures
            final(self)@.well_formed(),
            match matrix_times(
                status,
                body@,
                (old(self)@.chunk_stop() - old(self)@.sent) as usize,
            ) {
                Ok(times) => r == Ok::<(), Error>(()) && final(self)@ == old(self)@.chunk_answered(
                    times,
                ),
                Err(e) => r == Err::<(), Error>(e) && final(self)@ == old(self)@,
            },
    {
        let stop = next_chunk_end(
            self.sent,
            self.pending.len(),
            batch_limit(self.criteria[self.current].mode),
        );
        let chunk_len = stop - self.sent;
        match decode_matrix(status, body, chunk_len) {
            Ok(times) => {
                proof {
                    match rows_of(body@) {
                        Ok(rows) => lemma_destinations_in_chunk(rows, chunk_len),
                        Err(_) => {},
                    }
                }
                self.record_times(&times);
                Ok(())
            },
            Err(e) => Err(e),
        }
    }
}

} // verus!
