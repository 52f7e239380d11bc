//! What holds of every run of the resolution machine.

use crate::batch::{
    law_chunking_takes_the_fewest_requests, lemma_requests_from_is_a_count, requests_from,
    requests_needed, spec_batch_limit,
};
use crate::model::{within_budget, BuildingView, Criterion};
use crate::resolve::{route_key, uncached, ActionView, ResolutionView};
use crate::rows::RouteTime;
use vstd::prelude::*;

verus! {

/// The address of criterion number `i` is in the coordinate cache.
pub open spec fn address_cached(v: ResolutionView, i: int) -> bool {
    v.coordinates.contains_key(v.criteria[i].address@)
}

/// The trip from criterion number `i` to building number `k` is in the
/// duration cache.
pub open spec fn trip_cached(v: ResolutionView, i: int, k: int) -> bool {
    v.durations.contains_key(route_key(v.criteria[i], v.buildings[k]))
}

/// The caches can serve everything the criteria from the current one on
/// need: every address and every trip.
pub open spec fn fully_cached(v: ResolutionView) -> bool {
    &&& forall|i: int| v.current <= i < v.criteria.len() ==> #[trigger] address_cached(v, i)
    &&& forall|i: int, k: int|
        v.current <= i < v.criteria.len() && 0 <= k < v.buildings.len() ==> #[trigger] trip_cached(
            v,
            i,
            k,
        )
}

/// What the caches say of building number `k` under criterion number `i`:
/// the located criterion and the cached duration where that fits the
/// budget, `None` where it does not.
pub open spec fn cache_verdict(v: ResolutionView, i: int, k: int) -> Option<(Criterion, usize)> {
    let criterion = v.criteria[i].located_at(v.coordinates[v.criteria[i].address@]);
    let seconds = v.durations[route_key(criterion, v.buildings[k])];
    if within_budget(seconds, criterion.time) {
        Some((criterion, seconds))
    } else {
        None
    }
}

/// An address that is in the coordinate cache is never asked for, and
/// running the machine forward leaves the coordinate cache as it is. So
/// once an address has been resolved and remembered, resolving it again
/// costs no call to the provider.
pub proof fn law_cached_address_is_never_asked_for(v: ResolutionView, address: Seq<char>)
    requires
        v.well_formed(),
        v.coordinates.contains_key(address),
    ensures
        v.advance().1 != (ActionView::Geocode { address }),
        v.advance().0.coordinates == v.coordinates,
    decreases v.criteria.len() - v.current, (if v.routing { 0int } else { 1int }),
{
    if v.current >= v.criteria.len() {
    } else if !v.routing {
        let own = v.criteria[v.current as int].address@;
        if v.coordinates.contains_key(own) {
            let next = v.located(v.coordinates[own]);
            lemma_uncached_in_range(v.buildings, next.criteria[v.current as int], v.durations);
            law_cached_address_is_never_asked_for(next, address);
        }
    } else if v.sent < v.pending.len() {
    } else {
        law_cached_address_is_never_asked_for(v.moved_on(), address);
    }
}

/// The positions the cache pass hands back are positions of buildings.
pub proof fn lemma_uncached_in_range(
    buildings: Seq<BuildingView>,
    criterion: Criterion,
    durations: Map<crate::cache::RouteKey, usize>,
)
    requires
        buildings.len() <= usize::MAX,
    ensures
        forall|k: int|
            0 <= k < uncached(buildings, criterion, durations).len() ==> #[trigger] uncached(
                buildings,
                criterion,
                durations,
            )[k] < buildings.len(),
    decreases buildings.len(),
{
    if buildings.len() > 0 {
        lemma_uncached_in_range(buildings.drop_last(), criterion, durations);
        let rest = uncached(buildings.drop_last(), criterion, durations);
        let all = uncached(buildings, criterion, durations);
        assert forall|k: int| 0 <= k < all.len() implies #[trigger] all[k] < buildings.len() by {
            if k < rest.len() {
                assert(all[k] == rest[k]);
            }
        }
    }
}

/// Where every trip of a criterion is cached, the cache pass leaves no
/// building to route.
pub proof fn lemma_nothing_uncached(
    buildings: Seq<BuildingView>,
    criterion: Criterion,
    durations: Map<crate::cache::RouteKey, usize>,
)
    requires
        forall|k: int|
            0 <= k < buildings.len() ==> durations.contains_key(
                route_key(criterion, #[trigger] buildings[k]),
            ),
    ensures
        uncached(buildings, criterion, durations).len() == 0,
    decreases buildings.len(),
{
    if buildings.len() > 0 {
        let rest = buildings.drop_last();
        assert forall|k: int| 0 <= k < rest.len() implies durations.contains_key(
            route_key(criterion, #[trigger] rest[k]),
        ) by {
            assert(rest[k] == buildings[k]);
        }
        lemma_nothing_uncached(rest, criterion, durations);
        assert(durations.contains_key(route_key(criterion, buildings[buildings.len() - 1])));
    }
}

/// A run that the caches can serve asks the providers for nothing: it
/// finishes at once, leaves both caches as they are, and records for every
/// building exactly what the caches say: under criterion `j`, the cached
/// duration where it fits the budget, and nothing where it does not.
/// Whatever was recorded under criteria before the current one stays.
pub proof fn law_cached_run_asks_for_nothing(v: ResolutionView)
    requires
        v.well_formed(),
        !v.routing,
        fully_cached(v),
    ensures
        v.advance().1 == ActionView::Finished,
        v.advance().0.coordinates == v.coordinates,
        v.advance().0.durations == v.durations,
        v.advance().0.buildings.len() == v.buildings.len(),
        forall|k: int|
            0 <= k < v.buildings.len() ==> (#[trigger] v.advance().0.buildings[k]) == (BuildingView {
                times: v.advance().0.buildings[k].times,
                ..v.buildings[k]
            }),
        forall|k: int, j: usize|
            0 <= k < v.buildings.len() ==> (#[trigger] v.advance().0.buildings[k].times.contains_key(j)
                <==> (v.current <= j < v.criteria.len() && cache_verdict(v, j as int, k) is Some)
                || v.buildings[k].times.contains_key(j)),
        forall|k: int, j: usize|
            0 <= k < v.buildings.len() && v.advance().0.buildings[k].times.contains_key(j) ==> (
            #[trigger] v.advance().0.buildings[k].times[j]) == (if v.current <= j < v.criteria.len()
                && cache_verdict(v, j as int, k) is Some {
                cache_verdict(v, j as int, k)->0
            } else {
                v.buildings[k].times[j]
            }),
    decreases v.criteria.len() - v.current,
{
    if v.current < v.criteria.len() {
        let i = v.current as int;
        assert(address_cached(v, i));
        let location = v.coordinates[v.criteria[i].address@];
        let located = v.located(location);
        let criterion = located.criteria[i];
        assert forall|k: int| 0 <= k < v.buildings.len() implies v.durations.contains_key(
            route_key(criterion, #[trigger] v.buildings[k]),
        ) by {
            assert(trip_cached(v, i, k));
        }
        lemma_nothing_uncached(v.buildings, criterion, v.durations);
        assert(located.pending.len() == 0);
        let next = located.moved_on();
        assert(v.advance() == located.advance());
        assert(located.advance() == next.advance());
        assert(next.well_formed());
        assert forall|n: int| next.current <= n < next.criteria.len() implies #[trigger] address_cached(
            next,
            n,
        ) by {
            assert(address_cached(v, n));
        }
        assert forall|n: int, k: int|
            next.current <= n < next.criteria.len() && 0 <= k < next.buildings.len() implies #[trigger] trip_cached(
            next,
            n,
            k,
        ) by {
            assert(trip_cached(v, n, k));
        }
        law_cached_run_asks_for_nothing(next);
        let end = next.advance().0;
        assert forall|k: int, j: usize| 0 <= k < v.buildings.len() implies (
        #[trigger] end.buildings[k].times.contains_key(j) <==> (v.current <= j < v.criteria.len()
            && cache_verdict(v, j as int, k) is Some) || v.buildings[k].times.contains_key(j)) by {
            assert(trip_cached(v, i, k));
            if next.current <= j < next.criteria.len() {
                assert(cache_verdict(next, j as int, k) == cache_verdict(v, j as int, k));
            }
        }
        assert forall|k: int, j: usize|
            0 <= k < v.buildings.len() && end.buildings[k].times.contains_key(j) implies (
        #[trigger] end.buildings[k].times[j]) == (if v.current <= j < v.criteria.len()
            && cache_verdict(v, j as int, k) is Some {
            cache_verdict(v, j as int, k)->0
        } else {
            v.buildings[k].times[j]
        }) by {
            assert(trip_cached(v, i, k));
            if next.current <= j < next.criteria.len() {
                assert(cache_verdict(next, j as int, k) == cache_verdict(v, j as int, k));
            }
        }
    }
}

/// Taking in a travel time never overwrites a cached duration. Where the
/// trip was not cached yet, the cache holds the row's duration from then on,
/// and a building the duration admits is recorded with that same duration:
/// what the building shows is what a later run will find in the cache.
pub proof fn law_recorded_time_is_cached(v: ResolutionView, time: RouteTime)
    requires
        v.well_formed(),
        v.awaits_route(),
        time.destination < v.chunk_stop() - v.sent,
    ensures
        ({
            let criterion = v.criteria[v.current as int];
            let position = v.pending[v.sent + time.destination] as int;
            let key = route_key(criterion, v.buildings[position]);
            let after = v.record_time(time);
            &&& after.durations.contains_key(key)
            &&& v.durations.contains_key(key) ==> after.durations == v.durations
            &&& !v.durations.contains_key(key) ==> after.durations[key] == time.seconds
            &&& !v.durations.contains_key(key) && within_budget(time.seconds, criterion.time)
                ==> after.buildings[position].times.contains_key(v.current as usize)
                && after.buildings[position].times[v.current as usize] == (
                criterion,
                after.durations[key],
            )
            &&& !within_budget(time.seconds, criterion.time) ==> after.buildings == v.buildings
        }),
{
    assert(v.pending[v.sent + time.destination] < v.buildings.len());
    if !within_budget(time.seconds, v.criteria[v.current as int].time) {
        assert(v.record_time(time).buildings =~= v.buildings);
    }
}

/// How many routing requests the current criterion still needs.
pub open spec fn requests_left(v: ResolutionView) -> int {
    requests_from(
        v.sent as int,
        v.pending.len() as int,
        spec_batch_limit(v.criteria[v.current as int].mode) as int,
    )
}

/// Taking in travel times changes the caches and the buildings' records and
/// nothing else.
pub proof fn lemma_record_times_frame(v: ResolutionView, times: Seq<RouteTime>)
    ensures
        v.record_times(times).criteria == v.criteria,
        v.record_times(times).coordinates == v.coordinates,
        v.record_times(times).departure == v.departure,
        v.record_times(times).current == v.current,
        v.record_times(times).routing == v.routing,
        v.record_times(times).pending == v.pending,
        v.record_times(times).sent == v.sent,
    decreases times.len(),
{
    if times.len() > 0 {
        lemma_record_times_frame(v, times.drop_last());
    }
}

/// A criterion that has just been located needs as many routing requests
/// as its uncached buildings divided by the mode's limit, rounded up.
pub proof fn law_requests_of_a_located_criterion(v: ResolutionView, location: crate::model::Coordinates)
    requires
        v.well_formed(),
        v.awaits_location(),
    ensures
        requests_left(v.located(location)) == requests_needed(
            uncached(
                v.buildings,
                v.criteria[v.current as int].located_at(location),
                v.durations,
            ).len() as int,
            spec_batch_limit(v.criteria[v.current as int].mode) as int,
        ),
{
    let after = v.located(location);
    law_chunking_takes_the_fewest_requests(
        after.pending.len() as int,
        spec_batch_limit(v.criteria[v.current as int].mode) as int,
    );
}

/// While the machine waits for a routing answer at least one request is
/// left, and each answer that is taken in settles exactly one. So a
/// criterion is routed in exactly the number of requests it needed when it
/// was located.
pub proof fn law_each_answer_settles_one_request(v: ResolutionView, times: Seq<RouteTime>)
    requires
        v.well_formed(),
        v.routing,
    ensures
        v.awaits_route() <==> requests_left(v) >= 1,
        v.awaits_route() ==> requests_left(v.chunk_answered(times)) == requests_left(v) - 1,
{
    lemma_record_times_frame(v, times);
    let limit = spec_batch_limit(v.criteria[v.current as int].mode) as int;
    if v.awaits_route() {
        lemma_requests_from_is_a_count(v.chunk_stop(), v.pending.len() as int, limit);
    }
}

} // verus!
