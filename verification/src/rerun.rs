//! What holds of whole runs of the resolution machine: the records a
//! finished run leaves follow the admission rule, its caches only grow, and
//! a second run over the caches the first left behind asks the providers
//! for nothing and records what the first run recorded.

use crate::cache::write_once;
use crate::laws::{
    address_cached, fully_cached, law_cached_address_is_never_asked_for,
    law_cached_run_asks_for_nothing, lemma_record_times_frame, lemma_uncached_in_range,
    trip_cached,
};
use crate::model::{within_budget, BuildingView, Coordinates, Criterion};
use crate::resolve::{route_key, ActionView, ResolutionView};
use crate::rows::RouteTime;
use vstd::prelude::*;

verus! {

/// Two criteria ask for the same thing; only the location may differ.
pub open spec fn same_request(a: Criterion, b: Criterion) -> bool {
    a.mode == b.mode && a.address == b.address && a.time == b.time && a.color == b.color
}

/// Two buildings are the same listing; only the records may differ.
pub open spec fn same_listing(a: BuildingView, b: BuildingView) -> bool {
    a.name == b.name && a.address == b.address && a.coordinates == b.coordinates && a.apartments
        == b.apartments
}

/// Two machines work on the same criteria and the same buildings.
pub open spec fn same_problem(a: ResolutionView, b: ResolutionView) -> bool {
    &&& a.criteria.len() == b.criteria.len()
    &&& a.buildings.len() == b.buildings.len()
    &&& forall|j: int| 0 <= j < a.criteria.len() ==> same_request(a.criteria[j], #[trigger] b.criteria[j])
    &&& forall|k: int|
        0 <= k < a.buildings.len() ==> same_listing(a.buildings[k], #[trigger] b.buildings[k])
}

/// No two buildings share an address.
pub open spec fn distinct_addresses(v: ResolutionView) -> bool {
    forall|k: int, k2: int|
        0 <= k < v.buildings.len() && 0 <= k2 < v.buildings.len() && k != k2 ==> (#[trigger] v.buildings[k]).address
            != (#[trigger] v.buildings[k2]).address
}

/// Criterion number `j` has been located and scanned.
pub open spec fn processed(v: ResolutionView, j: int) -> bool {
    0 <= j < v.criteria.len() && (j < v.current || (j == v.current && v.routing))
}

/// The record of building `k` under criterion `j` is what the caches say:
/// the criterion as it stands and the cached duration, which fits the
/// budget.
pub open spec fn record_backed(v: ResolutionView, k: int, j: usize) -> bool {
    let criterion = v.criteria[j as int];
    let key = route_key(criterion, v.buildings[k]);
    &&& processed(v, j as int)
    &&& v.durations.contains_key(key)
    &&& v.buildings[k].times[j] == (criterion, v.durations[key])
    &&& within_budget(v.durations[key], criterion.time)
}

/// The records agree with the caches: every located criterion carries the
/// cached position of its address, every record is what the caches say, and
/// every cached trip of a processed criterion that fits the budget is
/// recorded.
pub open spec fn faithful(v: ResolutionView) -> bool {
    &&& v.well_formed()
    &&& distinct_addresses(v)
    &&& forall|j: int| #[trigger]
        processed(v, j) ==> address_cached(v, j) && v.criteria[j].location
            == v.coordinates[v.criteria[j].address@]
    &&& forall|k: int, j: usize|
        0 <= k < v.buildings.len() && #[trigger] v.buildings[k].times.contains_key(j)
            ==> record_backed(v, k, j)
    &&& forall|j: int, k: int|
        processed(v, j) && 0 <= k < v.buildings.len() && #[trigger] trip_cached(v, j, k)
            && within_budget(
            v.durations[route_key(v.criteria[j], v.buildings[k])],
            v.criteria[j].time,
        ) ==> v.buildings[k].times.contains_key(j as usize)
}

/// A travel time agrees with what went before: it names a destination of
/// the awaited chunk; where the cache holds the trip it repeats the cached
/// duration; and where the cache does not, no earlier criterion shares the
/// trip, so that a provider that found no route when an earlier criterion
/// asked about the trip finds none now.
pub open spec fn settles(v: ResolutionView, time: RouteTime) -> bool {
    let criterion = v.criteria[v.current as int];
    let building = v.buildings[v.pending[v.sent + time.destination] as int];
    let key = route_key(criterion, building);
    &&& time.destination < v.chunk_stop() - v.sent
    &&& v.durations.contains_key(key) ==> v.durations[key] == time.seconds
    &&& !v.durations.contains_key(key) ==> forall|j: int|
        0 <= j < v.current ==> route_key(#[trigger] v.criteria[j], building) != key
}

/// Each travel time of an answer settles at its turn.
pub open spec fn all_settle(v: ResolutionView, times: Seq<RouteTime>) -> bool
    decreases times.len(),
{
    times.len() == 0 || (all_settle(v, times.drop_last()) && settles(
        v.record_times(times.drop_last()),
        times.last(),
    ))
}

/// What a provider answered, decoded.
pub enum Reply {
    /// The position found for the address that was asked for.
    Location(Coordinates),
    /// The travel times found for the chunk that was asked about.
    Times(Seq<RouteTime>),
}

/// The reply answers what the machine asks for next.
pub open spec fn reply_fits(v: ResolutionView, reply: Reply) -> bool {
    match (v.advance().1, reply) {
        (ActionView::Geocode { .. }, Reply::Location(_)) => true,
        (ActionView::Route(_), Reply::Times(times)) => all_settle(v.advance().0, times),
        _ => false,
    }
}

/// The machine after it has asked for its next action and taken in the
/// reply.
pub open spec fn after_reply(v: ResolutionView, reply: Reply) -> ResolutionView {
    let asking = v.advance().0;
    match reply {
        Reply::Location(found) => ResolutionView {
            coordinates: write_once(
                asking.coordinates,
                asking.criteria[asking.current as int].address@,
                found,
            ),
            ..asking
        },
        Reply::Times(times) => asking.chunk_answered(times),
    }
}

/// The machine after a run of replies.
pub open spec fn run(v: ResolutionView, replies: Seq<Reply>) -> ResolutionView
    decreases replies.len(),
{
    if replies.len() == 0 {
        v
    } else {
        after_reply(run(v, replies.drop_last()), replies.last())
    }
}

/// Each reply of the run answers what the machine asks for at its turn.
pub open spec fn run_fits(v: ResolutionView, replies: Seq<Reply>) -> bool
    decreases replies.len(),
{
    replies.len() == 0 || (run_fits(v, replies.drop_last()) && reply_fits(
        run(v, replies.drop_last()),
        replies.last(),
    ))
}

/// A machine that has not started: at the first criterion, with no
/// building recorded under anything.
pub open spec fn fresh(v: ResolutionView) -> bool {
    &&& v.current == 0
    &&& !v.routing
    &&& v.pending.len() == 0
    &&& v.sent == 0
    &&& forall|k: int|
        0 <= k < v.buildings.len() ==> (#[trigger] v.buildings[k]).times == Map::<
            usize,
            (Criterion, usize),
        >::empty()
}

/// The machine that starts the same problem again over the caches that
/// `done` has left.
pub open spec fn again(start: ResolutionView, done: ResolutionView) -> ResolutionView {
    ResolutionView { coordinates: done.coordinates, durations: done.durations, ..start }
}

proof fn lemma_same_problem_keeps_trips(a: ResolutionView, b: ResolutionView)
    requires
        same_problem(a, b),
        distinct_addresses(a),
    ensures
        distinct_addresses(b),
        forall|j: int, k: int|
            0 <= j < a.criteria.len() && 0 <= k < a.buildings.len() ==> route_key(
                a.criteria[j],
                a.buildings[k],
            ) == #[trigger] route_key(b.criteria[j], b.buildings[k]),
{
    assert forall|j: int, k: int|
        0 <= j < a.criteria.len() && 0 <= k < a.buildings.len() implies route_key(
        a.criteria[j],
        a.buildings[k],
    ) == #[trigger] route_key(b.criteria[j], b.buildings[k]) by {
        assert(same_request(a.criteria[j], b.criteria[j]));
        assert(same_listing(a.buildings[k], b.buildings[k]));
    }
    assert forall|k: int, k2: int|
        0 <= k < b.buildings.len() && 0 <= k2 < b.buildings.len() && k != k2 implies (
    #[trigger] b.buildings[k]).address != (#[trigger] b.buildings[k2]).address by {
        assert(same_listing(a.buildings[k], b.buildings[k]));
        assert(same_listing(a.buildings[k2], b.buildings[k2]));
    }
}

proof fn lemma_faithful_carries_over(v: ResolutionView, w: ResolutionView)
    requires
        faithful(v),
        w.well_formed(),
        w.criteria == v.criteria,
        w.buildings == v.buildings,
        w.durations == v.durations,
        extends(w.coordinates, v.coordinates),
        forall|j: int| #[trigger] processed(w, j) ==> processed(v, j),
        forall|j: int| #[trigger] processed(v, j) ==> processed(w, j),
    ensures
        faithful(w),
        same_problem(v, w),
{
    assert(same_problem(v, w));
    lemma_same_problem_keeps_trips(v, w);
    assert forall|j: int| #[trigger] processed(w, j) implies address_cached(w, j)
        && w.criteria[j].location == w.coordinates[w.criteria[j].address@] by {
        assert(processed(v, j));
        assert(address_cached(v, j));
    }
    assert forall|k: int, j: usize|
        0 <= k < w.buildings.len() && #[trigger] w.buildings[k].times.contains_key(
            j,
        ) implies record_backed(w, k, j) by {
        assert(record_backed(v, k, j));
    }
    assert forall|j: int, k: int|
        processed(w, j) && 0 <= k < w.buildings.len() && #[trigger] trip_cached(w, j, k)
            && within_budget(
            w.durations[route_key(w.criteria[j], w.buildings[k])],
            w.criteria[j].time,
        ) implies w.buildings[k].times.contains_key(j as usize) by {
        assert(processed(v, j));
        assert(trip_cached(v, j, k));
    }
}

proof fn lemma_located_stays_faithful(v: ResolutionView)
    requires
        faithful(v),
        v.awaits_location(),
        v.coordinates.contains_key(v.criteria[v.current as int].address@),
    ensures
        faithful(v.located(v.coordinates[v.criteria[v.current as int].address@])),
        same_problem(v, v.located(v.coordinates[v.criteria[v.current as int].address@])),
{
    let i = v.current as int;
    let location = v.coordinates[v.criteria[i].address@];
    let w = v.located(location);
    let criterion = w.criteria[i];
    lemma_uncached_in_range(v.buildings, criterion, v.durations);
    assert(same_problem(v, w));
    lemma_same_problem_keeps_trips(v, w);
    assert forall|j: int| #[trigger] processed(w, j) implies address_cached(w, j)
        && w.criteria[j].location == w.coordinates[w.criteria[j].address@] by {
        if j != i {
            assert(processed(v, j));
        }
    }
    assert forall|k: int, j: usize|
        0 <= k < w.buildings.len() && #[trigger] w.buildings[k].times.contains_key(
            j,
        ) implies record_backed(w, k, j) by {
        if j == i {
            if v.buildings[k].times.contains_key(j) {
                assert(record_backed(v, k, j));
            }
        } else {
            assert(v.buildings[k].times.contains_key(j));
            assert(record_backed(v, k, j));
        }
    }
    assert forall|j: int, k: int|
        processed(w, j) && 0 <= k < w.buildings.len() && #[trigger] trip_cached(w, j, k)
            && within_budget(
            w.durations[route_key(w.criteria[j], w.buildings[k])],
            w.criteria[j].time,
        ) implies w.buildings[k].times.contains_key(j as usize) by {
        if j != i {
            assert(processed(v, j));
            assert(trip_cached(v, j, k));
        }
    }
}

proof fn lemma_moved_on_stays_faithful(v: ResolutionView)
    requires
        faithful(v),
        v.routing,
        v.sent >= v.pending.len(),
    ensures
        faithful(v.moved_on()),
        same_problem(v, v.moved_on()),
{
    lemma_faithful_carries_over(v, v.moved_on());
}

proof fn lemma_same_problem_chains(a: ResolutionView, b: ResolutionView, c: ResolutionView)
    requires
        same_problem(a, b),
        same_problem(b, c),
    ensures
        same_problem(a, c),
{
    assert forall|j: int| 0 <= j < a.criteria.len() implies same_request(
        a.criteria[j],
        #[trigger] c.criteria[j],
    ) by {
        assert(same_request(a.criteria[j], b.criteria[j]));
        assert(same_request(b.criteria[j], c.criteria[j]));
    }
    assert forall|k: int| 0 <= k < a.buildings.len() implies same_listing(
        a.buildings[k],
        #[trigger] c.buildings[k],
    ) by {
        assert(same_listing(a.buildings[k], b.buildings[k]));
        assert(same_listing(b.buildings[k], c.buildings[k]));
    }
}

proof fn lemma_advance_stays_faithful(v: ResolutionView)
    requires
        faithful(v),
    ensures
        faithful(v.advance().0),
        same_problem(v, v.advance().0),
        v.advance().0.coordinates == v.coordinates,
        v.advance().0.durations == v.durations,
        v.advance().1 matches ActionView::Geocode { address } ==> v.advance().0.awaits_location(),
        v.advance().1 is Route ==> v.advance().0.awaits_route(),
        v.advance().1 is Finished ==> v.advance().0.current == v.criteria.len(),
    decreases v.criteria.len() - v.current, (if v.routing { 0int } else { 1int }),
{
    if v.current >= v.criteria.len() {
        assert(same_problem(v, v));
    } else if !v.routing {
        let own = v.criteria[v.current as int].address@;
        if v.coordinates.contains_key(own) {
            let next = v.located(v.coordinates[own]);
            lemma_located_stays_faithful(v);
            lemma_advance_stays_faithful(next);
            lemma_same_problem_chains(v, next, next.advance().0);
        } else {
            assert(same_problem(v, v));
        }
    } else if v.sent < v.pending.len() {
        assert(same_problem(v, v));
    } else {
        let next = v.moved_on();
        lemma_moved_on_stays_faithful(v);
        lemma_advance_stays_faithful(next);
        lemma_same_problem_chains(v, next, next.advance().0);
    }
}

proof fn lemma_location_stays_faithful(v: ResolutionView, found: Coordinates)
    requires
        faithful(v),
        v.awaits_location(),
    ensures
        faithful(
            ResolutionView {
                coordinates: write_once(
                    v.coordinates,
                    v.criteria[v.current as int].address@,
                    found,
                ),
                ..v
            },
        ),
        same_problem(
            v,
            ResolutionView {
                coordinates: write_once(
                    v.coordinates,
                    v.criteria[v.current as int].address@,
                    found,
                ),
                ..v
            },
        ),
{
    lemma_faithful_carries_over(
        v,
        ResolutionView {
            coordinates: write_once(v.coordinates, v.criteria[v.current as int].address@, found),
            ..v
        },
    );
}

proof fn lemma_record_time_stays_faithful(v: ResolutionView, time: RouteTime)
    requires
        faithful(v),
        v.awaits_route(),
        settles(v, time),
    ensures
        faithful(v.record_time(time)),
        same_problem(v, v.record_time(time)),
        v.record_time(time).awaits_route(),
        v.record_time(time).sent == v.sent,
        v.record_time(time).pending == v.pending,
        v.record_time(time).current == v.current,
        v.record_time(time).criteria == v.criteria,
        v.record_time(time).coordinates == v.coordinates,
{
    let i = v.current as int;
    let criterion = v.criteria[i];
    let position = v.pending[v.sent + time.destination] as int;
    assert(v.pending[v.sent + time.destination] < v.buildings.len());
    let key = route_key(criterion, v.buildings[position]);
    let w = v.record_time(time);
    assert(same_problem(v, w));
    lemma_same_problem_keeps_trips(v, w);
    assert forall|j: int| #[trigger] processed(w, j) implies address_cached(w, j)
        && w.criteria[j].location == w.coordinates[w.criteria[j].address@] by {
        assert(processed(v, j));
        assert(address_cached(v, j));
    }
    assert forall|k: int, j: usize|
        0 <= k < w.buildings.len() && #[trigger] w.buildings[k].times.contains_key(
            j,
        ) implies record_backed(w, k, j) by {
        if k == position && j == i {
            assert(route_key(w.criteria[i], w.buildings[position]) == key);
            if v.buildings[k].times.contains_key(j) {
                assert(record_backed(v, k, j));
            }
        } else {
            assert(v.buildings[k].times.contains_key(j));
            assert(record_backed(v, k, j));
            assert(route_key(v.criteria[j as int], v.buildings[k]) == route_key(
                w.criteria[j as int],
                w.buildings[k],
            ));
        }
    }
    assert forall|j: int, k: int|
        processed(w, j) && 0 <= k < w.buildings.len() && #[trigger] trip_cached(w, j, k)
            && within_budget(
            w.durations[route_key(w.criteria[j], w.buildings[k])],
            w.criteria[j].time,
        ) implies w.buildings[k].times.contains_key(j as usize) by {
        assert(processed(v, j));
        assert(route_key(v.criteria[j], v.buildings[k]) == route_key(w.criteria[j], w.buildings[k]));
        if j == i && k == position {
            if v.durations.contains_key(key) {
                assert(trip_cached(v, j, k));
            }
        } else if v.durations.contains_key(key) {
            assert(trip_cached(v, j, k));
        } else {
            if k != position {
                assert(v.buildings[k].address != v.buildings[position].address);
            } else {
                assert(route_key(v.criteria[j], v.buildings[position]) != key);
            }
            assert(trip_cached(v, j, k));
        }
    }
}

proof fn lemma_record_times_stays_faithful(v: ResolutionView, times: Seq<RouteTime>)
    requires
        faithful(v),
        v.awaits_route(),
        all_settle(v, times),
    ensures
        faithful(v.record_times(times)),
        same_problem(v, v.record_times(times)),
        v.record_times(times).awaits_route(),
        v.record_times(times).sent == v.sent,
        v.record_times(times).pending == v.pending,
        v.record_times(times).current == v.current,
        v.record_times(times).criteria == v.criteria,
        v.record_times(times).coordinates == v.coordinates,
    decreases times.len(),
{
    if times.len() == 0 {
        assert(same_problem(v, v));
    } else {
        let before = v.record_times(times.drop_last());
        lemma_record_times_stays_faithful(v, times.drop_last());
        lemma_record_time_stays_faithful(before, times.last());
        lemma_same_problem_chains(v, before, before.record_time(times.last()));
    }
}

proof fn lemma_chunk_answered_stays_faithful(v: ResolutionView, times: Seq<RouteTime>)
    requires
        faithful(v),
        v.awaits_route(),
        all_settle(v, times),
    ensures
        faithful(v.chunk_answered(times)),
        same_problem(v, v.chunk_answered(times)),
{
    let recorded = v.record_times(times);
    lemma_record_times_stays_faithful(v, times);
    lemma_faithful_carries_over(recorded, v.chunk_answered(times));
    lemma_same_problem_chains(v, recorded, v.chunk_answered(times));
}

proof fn lemma_run_stays_faithful(v: ResolutionView, replies: Seq<Reply>)
    requires
        faithful(v),
        run_fits(v, replies),
    ensures
        faithful(run(v, replies)),
        same_problem(v, run(v, replies)),
    decreases replies.len(),
{
    if replies.len() == 0 {
        assert(same_problem(v, v));
    } else {
        let before = run(v, replies.drop_last());
        lemma_run_stays_faithful(v, replies.drop_last());
        let asking = before.advance().0;
        lemma_advance_stays_faithful(before);
        lemma_same_problem_chains(v, before, asking);
        match replies.last() {
            Reply::Location(found) => {
                lemma_location_stays_faithful(asking, found);
            },
            Reply::Times(times) => {
                lemma_chunk_answered_stays_faithful(asking, times);
            },
        }
        lemma_same_problem_chains(v, asking, after_reply(before, replies.last()));
    }
}

/// Every trip from a criterion to a building is in the duration cache.
pub open spec fn every_trip_cached(v: ResolutionView) -> bool {
    forall|j: int, k: int|
        0 <= j < v.criteria.len() && 0 <= k < v.buildings.len() ==> #[trigger] trip_cached(v, j, k)
}

/// Idempotence. Take a fresh machine whose buildings have distinct
/// addresses, let it run to the end with replies that each answer what was
/// asked and agree with what went before, and start the same criteria and
/// buildings again over the caches it left. If the duration cache then holds
/// every trip, the second run asks the providers for nothing, neither for an
/// address nor for a route, and records for every building exactly what the
/// first run recorded. Criteria may share address and mode.
pub proof fn law_second_run_repeats_the_first(start: ResolutionView, replies: Seq<Reply>)
    requires
        start.well_formed(),
        fresh(start),
        distinct_addresses(start),
        run_fits(start, replies),
        run(start, replies).advance().1 == ActionView::Finished,
        every_trip_cached(run(start, replies).advance().0),
    ensures
        again(start, run(start, replies).advance().0).advance().1 == ActionView::Finished,
        again(start, run(start, replies).advance().0).advance().0.buildings.len()
            == run(start, replies).advance().0.buildings.len(),
        forall|k: int|
            0 <= k < start.buildings.len() ==> (#[trigger] again(
                start,
                run(start, replies).advance().0,
            ).advance().0.buildings[k]) == run(start, replies).advance().0.buildings[k],
{
    assert(faithful(start));
    let last = run(start, replies);
    lemma_run_stays_faithful(start, replies);
    let done = last.advance().0;
    lemma_advance_stays_faithful(last);
    lemma_same_problem_chains(start, last, done);
    lemma_same_problem_keeps_trips(start, done);
    let second = again(start, done);
    assert forall|j: int| second.current <= j < second.criteria.len() implies #[trigger] address_cached(
        second,
        j,
    ) by {
        assert(same_request(start.criteria[j], done.criteria[j]));
        assert(processed(done, j));
        assert(address_cached(done, j));
    }
    assert forall|j: int, k: int|
        second.current <= j < second.criteria.len() && 0 <= k < second.buildings.len() implies #[trigger] trip_cached(
        second,
        j,
        k,
    ) by {
        assert(trip_cached(done, j, k));
        assert(route_key(start.criteria[j], start.buildings[k]) == route_key(
            done.criteria[j],
            done.buildings[k],
        ));
    }
    assert(fully_cached(second));
    law_cached_run_asks_for_nothing(second);
    let redone = second.advance().0;
    assert forall|k: int| 0 <= k < start.buildings.len() implies (#[trigger] redone.buildings[k])
        == done.buildings[k] by {
        assert(same_listing(start.buildings[k], done.buildings[k]));
        assert forall|j: usize|
            redone.buildings[k].times.contains_key(j) <==> done.buildings[k].times.contains_key(
                j,
            ) by {
            if j < start.criteria.len() {
                assert(same_request(start.criteria[j as int], done.criteria[j as int]));
                assert(processed(done, j as int));
                assert(address_cached(second, j as int));
                assert(trip_cached(second, j as int, k));
                assert(route_key(second.criteria[j as int], second.buildings[k]) == route_key(
                    done.criteria[j as int],
                    done.buildings[k],
                ));
                assert(trip_cached(done, j as int, k));
                if done.buildings[k].times.contains_key(j) {
                    assert(record_backed(done, k, j));
                }
            } else {
                if done.buildings[k].times.contains_key(j) {
                    assert(record_backed(done, k, j));
                }
            }
        }
        assert forall|j: usize| redone.buildings[k].times.contains_key(j) implies redone.buildings[k].times[j]
            == done.buildings[k].times[j] by {
            assert(done.buildings[k].times.contains_key(j));
            assert(record_backed(done, k, j));
            assert(same_request(start.criteria[j as int], done.criteria[j as int]));
            assert(processed(done, j as int));
        }
        assert(redone.buildings[k].times =~= done.buildings[k].times);
    }
}

/// The admission rule over a whole run. Take a fresh machine whose
/// buildings have distinct addresses and let it run to the end with replies
/// that each answer what was asked and agree with what went before. Then a
/// building is recorded under criterion `j` exactly where the duration cache
/// holds the trip and the cached duration is within the criterion's budget,
/// the boundary included; the record carries the criterion as located and
/// that duration; and no record stands under a number that is no
/// criterion's.
pub proof fn law_finished_run_follows_the_admission_rule(start: ResolutionView, replies: Seq<Reply>)
    requires
        start.well_formed(),
        fresh(start),
        distinct_addresses(start),
        run_fits(start, replies),
        run(start, replies).advance().1 == ActionView::Finished,
    ensures
        same_problem(start, run(start, replies).advance().0),
        forall|k: int, j: usize|
            0 <= k < start.buildings.len() ==> (#[trigger] run(
                start,
                replies,
            ).advance().0.buildings[k].times.contains_key(j) <==> j < start.criteria.len()
                && trip_cached(run(start, replies).advance().0, j as int, k) && within_budget(
                run(start, replies).advance().0.durations[route_key(
                    run(start, replies).advance().0.criteria[j as int],
                    run(start, replies).advance().0.buildings[k],
                )],
                start.criteria[j as int].time,
            )),
        forall|k: int, j: usize|
            0 <= k < start.buildings.len() && run(
                start,
                replies,
            ).advance().0.buildings[k].times.contains_key(j) ==> (#[trigger] run(
                start,
                replies,
            ).advance().0.buildings[k].times[j]) == (
                run(start, replies).advance().0.criteria[j as int],
                run(start, replies).advance().0.durations[route_key(
                    run(start, replies).advance().0.criteria[j as int],
                    run(start, replies).advance().0.buildings[k],
                )],
            ),
{
    assert(faithful(start));
    let last = run(start, replies);
    lemma_run_stays_faithful(start, replies);
    let done = last.advance().0;
    lemma_advance_stays_faithful(last);
    lemma_same_problem_chains(start, last, done);
    assert forall|k: int, j: usize| 0 <= k < start.buildings.len() implies (
    #[trigger] done.buildings[k].times.contains_key(j) <==> j < start.criteria.len() && trip_cached(
        done,
        j as int,
        k,
    ) && within_budget(
        done.durations[route_key(done.criteria[j as int], done.buildings[k])],
        start.criteria[j as int].time,
    )) by {
        if done.buildings[k].times.contains_key(j) {
            assert(record_backed(done, k, j));
        }
        if j < start.criteria.len() {
            assert(processed(done, j as int));
            assert(same_request(start.criteria[j as int], done.criteria[j as int]));
        }
    }
    assert forall|k: int, j: usize|
        0 <= k < start.buildings.len() && done.buildings[k].times.contains_key(j) implies (
    #[trigger] done.buildings[k].times[j]) == (
        done.criteria[j as int],
        done.durations[route_key(done.criteria[j as int], done.buildings[k])],
    ) by {
        assert(record_backed(done, k, j));
    }
}

/// What `later` holds includes all that `earlier` held, unchanged.
pub open spec fn extends<K, V>(later: Map<K, V>, earlier: Map<K, V>) -> bool {
    forall|key: K| #[trigger]
        earlier.contains_key(key) ==> later.contains_key(key) && later[key] == earlier[key]
}

/// The reply is of the kind the machine asks for next.
pub open spec fn reply_answers(v: ResolutionView, reply: Reply) -> bool {
    match (v.advance().1, reply) {
        (ActionView::Geocode { .. }, Reply::Location(_)) => true,
        (ActionView::Route(_), Reply::Times(_)) => true,
        _ => false,
    }
}

/// Each reply of the run is of the kind the machine asks for at its turn.
pub open spec fn run_answers(v: ResolutionView, replies: Seq<Reply>) -> bool
    decreases replies.len(),
{
    replies.len() == 0 || (run_answers(v, replies.drop_last()) && reply_answers(
        run(v, replies.drop_last()),
        replies.last(),
    ))
}

/// The machine `v` has grown out of `start`: it works on the same criteria,
/// its caches hold all that `start`'s held, unchanged, and every criterion
/// it has located carries the cached position of its address.
pub open spec fn grown_from(start: ResolutionView, v: ResolutionView) -> bool {
    &&& v.criteria.len() == start.criteria.len()
    &&& forall|j: int|
        0 <= j < start.criteria.len() ==> same_request(start.criteria[j], #[trigger] v.criteria[j])
    &&& extends(v.coordinates, start.coordinates)
    &&& extends(v.durations, start.durations)
    &&& forall|j: int| #[trigger]
        processed(v, j) ==> address_cached(v, j) && v.criteria[j].location
            == v.coordinates[v.criteria[j].address@]
}

proof fn lemma_advance_grows(start: ResolutionView, v: ResolutionView)
    requires
        grown_from(start, v),
    ensures
        grown_from(start, v.advance().0),
        v.advance().1 is Geocode ==> v.advance().0.awaits_location(),
        v.advance().1 is Route ==> v.advance().0.routing && v.advance().0.current
            < v.criteria.len(),
        v.advance().1 is Finished ==> v.advance().0.current >= v.criteria.len(),
    decreases v.criteria.len() - v.current, (if v.routing { 0int } else { 1int }),
{
    if v.current >= v.criteria.len() {
    } else if !v.routing {
        let own = v.criteria[v.current as int].address@;
        if v.coordinates.contains_key(own) {
            let next = v.located(v.coordinates[own]);
            assert forall|j: int| 0 <= j < start.criteria.len() implies same_request(
                start.criteria[j],
                #[trigger] next.criteria[j],
            ) by {
                assert(same_request(start.criteria[j], v.criteria[j]));
            }
            assert forall|j: int| #[trigger] processed(next, j) implies address_cached(next, j)
                && next.criteria[j].location == next.coordinates[next.criteria[j].address@] by {
                if j != v.current {
                    assert(processed(v, j));
                }
            }
            lemma_advance_grows(start, next);
        }
    } else if v.sent < v.pending.len() {
    } else {
        let next = v.moved_on();
        assert forall|j: int| #[trigger] processed(next, j) implies address_cached(next, j)
            && next.criteria[j].location == next.coordinates[next.criteria[j].address@] by {
            assert(processed(v, j));
        }
        lemma_advance_grows(start, next);
    }
}

proof fn lemma_record_times_grows(v: ResolutionView, times: Seq<RouteTime>)
    ensures
        extends(v.record_times(times).durations, v.durations),
    decreases times.len(),
{
    if times.len() > 0 {
        lemma_record_times_grows(v, times.drop_last());
    }
}

proof fn lemma_run_grows(start: ResolutionView, replies: Seq<Reply>)
    requires
        grown_from(start, start),
        run_answers(start, replies),
    ensures
        grown_from(start, run(start, replies)),
    decreases replies.len(),
{
    if replies.len() > 0 {
        let before = run(start, replies.drop_last());
        lemma_run_grows(start, replies.drop_last());
        lemma_advance_grows(start, before);
        let asking = before.advance().0;
        let after = after_reply(before, replies.last());
        match replies.last() {
            Reply::Location(found) => {
                assert forall|j: int| #[trigger] processed(after, j) implies address_cached(after, j)
                    && after.criteria[j].location == after.coordinates[after.criteria[j].address@] by {
                    assert(processed(asking, j));
                    assert(address_cached(asking, j));
                }
            },
            Reply::Times(times) => {
                lemma_record_times_frame(asking, times);
                lemma_record_times_grows(asking, times);
                assert forall|j: int| #[trigger] processed(after, j) implies address_cached(after, j)
                    && after.criteria[j].location == after.coordinates[after.criteria[j].address@] by {
                    assert(processed(asking, j));
                    assert(address_cached(asking, j));
                }
            },
        }
    }
}

/// Caches over a whole run. Let a machine that has not located anything yet
/// run to the end, whatever the replies hold. Then every criterion's address
/// is in the coordinate cache and the criterion carries the cached position;
/// both caches hold all they held at the start, unchanged; and a machine
/// that starts the same criteria again over the caches left behind asks the
/// geocoding provider for none of those addresses.
pub proof fn law_finished_run_has_cached_every_address(start: ResolutionView, replies: Seq<Reply>)
    requires
        start.well_formed(),
        start.current == 0,
        !start.routing,
        run_answers(start, replies),
        run(start, replies).advance().1 == ActionView::Finished,
    ensures
        extends(run(start, replies).advance().0.coordinates, start.coordinates),
        extends(run(start, replies).advance().0.durations, start.durations),
        forall|j: int|
            0 <= j < start.criteria.len() ==> {
                &&& run(start, replies).advance().0.coordinates.contains_key(
                    (#[trigger] start.criteria[j]).address@,
                )
                &&& run(start, replies).advance().0.criteria[j] == start.criteria[j].located_at(
                    run(start, replies).advance().0.coordinates[start.criteria[j].address@],
                )
                &&& again(start, run(start, replies).advance().0).advance().1 != (
                ActionView::Geocode { address: start.criteria[j].address@ })
            },
{
    assert(grown_from(start, start));
    let last = run(start, replies);
    lemma_run_grows(start, replies);
    lemma_advance_grows(start, last);
    let done = last.advance().0;
    let second = again(start, done);
    assert forall|j: int| 0 <= j < start.criteria.len() implies {
        &&& done.coordinates.contains_key((#[trigger] start.criteria[j]).address@)
        &&& done.criteria[j] == start.criteria[j].located_at(
            done.coordinates[start.criteria[j].address@],
        )
        &&& second.advance().1 != (ActionView::Geocode { address: start.criteria[j].address@ })
    } by {
        assert(processed(done, j));
        assert(same_request(start.criteria[j], done.criteria[j]));
        assert(address_cached(done, j));
        law_cached_address_is_never_asked_for(second, start.criteria[j].address@);
    }
}

} // verus!
