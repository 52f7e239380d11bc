//! The matrix batcher's arithmetic: how many destinations one routing
//! request may carry, and how a list of destinations is cut into requests.

use crate::model::{Coordinates, TransportationMode};
use vstd::prelude::*;

verus! {

/// The provider's ceiling on destinations per request for public transit.
pub const TRANSIT_BATCH_LIMIT: usize = 100;

/// The provider's ceiling on destinations per request for every other mode.
pub const DEFAULT_BATCH_LIMIT: usize = 625;

/// The most destinations one request may carry in `mode`.
pub open spec fn spec_batch_limit(mode: TransportationMode) -> usize {
    match mode {
        TransportationMode::Public => TRANSIT_BATCH_LIMIT,
        _ => DEFAULT_BATCH_LIMIT,
    }
}

/// The most destinations one request may carry in `mode`.
pub fn batch_limit(mode: TransportationMode) -> (limit: usize)
    ensures
        limit == spec_batch_limit(mode),
        limit > 0,
{
    match mode {
        TransportationMode::Public => TRANSIT_BATCH_LIMIT,
        _ => DEFAULT_BATCH_LIMIT,
    }
}

/// The provider's word for `mode`.
pub open spec fn spec_provider_mode(mode: TransportationMode) -> Seq<char> {
    match mode {
        TransportationMode::Cycling => "BICYCLE"@,
        TransportationMode::Walking => "WALK"@,
        TransportationMode::Driving => "DRIVE"@,
        TransportationMode::Public => "TRANSIT"@,
    }
}

/// The provider's word for `mode`.
pub fn provider_mode(mode: TransportationMode) -> (word: &'static str)
    ensures
        word@ == spec_provider_mode(mode),
{
    match mode {
        TransportationMode::Cycling => "BICYCLE",
        TransportationMode::Walking => "WALK",
        TransportationMode::Driving => "DRIVE",
        TransportationMode::Public => "TRANSIT",
    }
}

/// How many requests `count` destinations take when each carries at most
/// `limit`.
pub open spec fn requests_needed(count: int, limit: int) -> int {
    (count + limit - 1) / limit
}

/// Where the chunk that starts at `start` ends: `limit` further on, or at
/// `count` where fewer are left.
pub open spec fn chunk_end(start: int, count: int, limit: int) -> int {
    if count - start < limit {
        count
    } else {
        start + limit
    }
}

/// Whether `(start, end)` is the `k`-th chunk of `count` destinations, as a
/// half-open range of positions.
pub open spec fn is_chunk(range: (usize, usize), k: int, count: int, limit: int) -> bool {
    range.0 == k * limit && range.1 == chunk_end(k * limit, count, limit)
}

/// Where the chunk that starts at `start` ends.
pub fn next_chunk_end(start: usize, count: usize, limit: usize) -> (end: usize)
    requires
        start <= count,
        limit > 0,
    ensures
        end == chunk_end(start as int, count as int, limit as int),
        start <= end <= count,
        start < count ==> start < end,
{
    if count - start < limit {
        count
    } else {
        start + limit
    }
}

/// Cuts `count` destinations into ordered chunks of at most `limit` each:
/// every chunk but the last is full, and the last holds what is left.
pub fn plan_chunks(count: usize, limit: usize) -> (chunks: Vec<(usize, usize)>)
    requires
        limit > 0,
    ensures
        chunks.len() == requests_needed(count as int, limit as int),
        forall|k: int|
            0 <= k < chunks.len() ==> is_chunk(#[trigger] chunks[k], k, count as int, limit as int),
{
    let mut chunks: Vec<(usize, usize)> = Vec::new();
    let mut start: usize = 0;
    proof {
        assert(0 * (limit as int) == 0) by (nonlinear_arith);
        lemma_requests_done(0, 0, limit as int);
    }
    while start < count
        invariant
            limit > 0,
            start <= count,
            start < count ==> start == chunks.len() * limit,
            start == count ==> chunks.len() == requests_needed(count as int, limit as int),
            forall|k: int|
                0 <= k < chunks.len() ==> is_chunk(
                    #[trigger] chunks[k],
                    k,
                    count as int,
                    limit as int,
                ),
        decreases count - start,
    {
        let end = next_chunk_end(start, count, limit);
        proof {
            let n = chunks.len() as int;
            lemma_requests_step(n, count as int, limit as int);
            assert((n + 1) * limit == n * limit + limit) by (nonlinear_arith);
        }
        chunks.push((start, end));
        start = end;
    }
    chunks
}

/// Nothing left to send after `n` full chunks that cover everything.
proof fn lemma_requests_done(n: int, count: int, limit: int)
    by (nonlinear_arith)
    requires
        limit > 0,
        n >= 0,
        n * limit == count,
    ensures
        requests_needed(count, limit) == n,
{
}

/// With `n` full chunks sent and something left, either the rest fits one
/// last request or another full chunk goes out.
proof fn lemma_requests_step(n: int, count: int, limit: int)
    by (nonlinear_arith)
    requires
        limit > 0,
        n >= 0,
        n * limit < count,
    ensures
        count - n * limit < limit ==> requests_needed(count, limit) == n + 1,
        count - n * limit == limit ==> requests_needed(count, limit) == n + 1,
        requests_needed(count, limit) >= n + 1,
{
}

/// How many requests it takes to send the destinations from position
/// `start` on, one chunk after the other.
pub open spec fn requests_from(start: int, count: int, limit: int) -> int
    decreases count - start,
{
    if start >= count || limit <= 0 {
        0
    } else {
        1 + requests_from(chunk_end(start, count, limit), count, limit)
    }
}

/// Sending chunk after chunk takes exactly as many requests as the
/// destinations divided by the limit, rounded up: 700 destinations at 625
/// take 2, and so do 150 at 100.
pub proof fn law_chunking_takes_the_fewest_requests(count: int, limit: int)
    requires
        0 <= count,
        0 < limit,
    ensures
        requests_from(0, count, limit) == requests_needed(count, limit),
{
    lemma_requests_from(0, count, limit);
    assert(0 * limit == 0) by (nonlinear_arith);
    assert(requests_needed(count, limit) - 0 == requests_needed(count, limit));
}

/// The number of requests left is never negative.
pub proof fn lemma_requests_from_is_a_count(start: int, count: int, limit: int)
    ensures
        requests_from(start, count, limit) >= 0,
    decreases count - start,
{
    if start < count && limit > 0 {
        lemma_requests_from_is_a_count(chunk_end(start, count, limit), count, limit);
    }
}

/// After `n` full chunks the rest takes what is left of the total.
proof fn lemma_requests_from(n: int, count: int, limit: int)
    requires
        0 <= n,
        0 < limit,
        n * limit <= count,
    ensures
        requests_from(n * limit, count, limit) == requests_needed(count, limit) - n,
    decreases count - n * limit,
{
    if n * limit == count {
        lemma_requests_done(n, count, limit);
    } else {
        lemma_requests_step(n, count, limit);
        assert((n + 1) * limit == n * limit + limit) by (nonlinear_arith);
        if count - n * limit < limit {
            assert(requests_from(count, count, limit) == 0);
        } else {
            lemma_requests_from(n + 1, count, limit);
        }
    }
}

/// One routing-matrix request: one origin, the destinations of one chunk in
/// order, the provider's word for the mode, and the departure time.
#[derive(Debug, PartialEq, Eq)]
pub struct MatrixRequest {
    pub origin: Coordinates,
    pub destinations: Vec<Coordinates>,
    pub travel_mode: String,
    pub departure_time: String,
}

/// A request as the contracts see it.
pub struct MatrixRequestView {
    pub origin: Coordinates,
    pub destinations: Seq<Coordinates>,
    pub travel_mode: Seq<char>,
    pub departure_time: Seq<char>,
}

impl View for MatrixRequest {
    type V = MatrixRequestView;

    open spec fn view(&self) -> MatrixRequestView {
        MatrixRequestView {
            origin: self.origin,
            destinations: self.destinations@,
            travel_mode: self.travel_mode@,
            departure_time: self.departure_time@,
        }
    }
}

} // verus!
