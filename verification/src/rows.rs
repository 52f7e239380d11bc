//! The rows of a routing-matrix answer and what the engine makes of them.

use crate::duration::{duration_seconds, parse_duration};
use crate::error::{Error, RoutingError};
use crate::json::{
    document, items, json_document, json_items, json_member, json_text, json_unsigned, member,
    text, unsigned,
};
use vstd::prelude::*;

verus! {

/// One row of the answer as it was sent: each field as found, or `None`
/// where the row lacks it or holds it in another JSON type.
#[derive(Debug, PartialEq, Eq)]
pub struct RawRow {
    pub destination_index: Option<u64>,
    pub condition: Option<String>,
    pub duration: Option<String>,
}

/// A raw row as the contracts see it.
pub struct RawRowView {
    pub destination_index: Option<u64>,
    pub condition: Option<Seq<char>>,
    pub duration: Option<Seq<char>>,
}

impl View for RawRow {
    type V = RawRowView;

    open spec fn view(&self) -> RawRowView {
        RawRowView {
            destination_index: self.destination_index,
            condition: match self.condition {
                Some(c) => Some(c@),
                None => None,
            },
            duration: match self.duration {
                Some(d) => Some(d@),
                None => None,
            },
        }
    }
}

/// The views of a run of raw rows.
pub open spec fn row_views(rows: Seq<RawRow>) -> Seq<RawRowView> {
    Seq::new(rows.len(), |i: int| rows[i]@)
}

/// A travel time the provider found: the destination's position within the
/// chunk that was asked about, and the trip's whole seconds.
#[derive(Clone, Copy, Debug, PartialEq, Eq, Structural)]
pub struct RouteTime {
    pub destination: usize,
    pub seconds: usize,
}

/// The statuses with which the provider reports success.
pub open spec fn is_success(status: u16) -> bool {
    200 <= status <= 299
}

/// Accepts a success status and turns any other into a routing error that
/// carries it.
pub fn check_status(status: u16) -> (r: Result<(), Error>)
    ensures
        r == (if is_success(status) {
            Ok::<(), Error>(())
        } else {
            Err(Error::Routing(RoutingError::Status(status)))
        }),
{
    if 200 <= status && status <= 299 {
        Ok(())
    } else {
        Err(Error::Routing(RoutingError::Status(status)))
    }
}

/// What one row means for a chunk of `chunk_len` destinations.
///
/// - no condition: the answer is malformed;
/// - `ROUTE_NOT_FOUND`: no travel time, and no error;
/// - any condition but `ROUTE_EXISTS`: an unexpected condition;
/// - `ROUTE_EXISTS`: the duration must be present (else malformed) and a
///   duration that fits `usize` (else a parse error), and the destination
///   index must be present and inside the chunk (else malformed).
pub open spec fn interpret(row: RawRowView, chunk_len: usize) -> Result<Option<RouteTime>, Error> {
    match row.condition {
        None => Err(Error::Routing(RoutingError::Malformed)),
        Some(condition) => if condition == "ROUTE_NOT_FOUND"@ {
            Ok(None)
        } else if condition != "ROUTE_EXISTS"@ {
            Err(Error::Routing(RoutingError::UnexpectedCondition))
        } else {
            match row.duration {
                None => Err(Error::Routing(RoutingError::Malformed)),
                Some(duration) => match duration_seconds(duration) {
                    Some(n) if n <= usize::MAX => match row.destination_index {
                        Some(j) if j < chunk_len => Ok(
                            Some(RouteTime { destination: j as usize, seconds: n as usize }),
                        ),
                        _ => Err(Error::Routing(RoutingError::Malformed)),
                    },
                    _ => Err(Error::Parse),
                },
            }
        },
    }
}

/// What a whole answer means: the travel times of its rows in row order, or
/// the error of the first row that has one. An answer with an error yields
/// no travel time at all.
pub open spec fn interpret_all(rows: Seq<RawRowView>, chunk_len: usize) -> Result<
    Seq<RouteTime>,
    Error,
>
    decreases rows.len(),
{
    if rows.len() == 0 {
        Ok(Seq::empty())
    } else {
        match interpret_all(rows.drop_last(), chunk_len) {
            Err(e) => Err(e),
            Ok(found) => match interpret(rows.last(), chunk_len) {
                Err(e) => Err(e),
                Ok(None) => Ok(found),
                Ok(Some(t)) => Ok(found.push(t)),
            },
        }
    }
}

/// An error among the first rows is the error of the whole answer.
pub proof fn lemma_error_persists(rows: Seq<RawRowView>, chunk_len: usize, k: int)
    requires
        0 <= k <= rows.len(),
        interpret_all(rows.take(k), chunk_len) is Err,
    ensures
        interpret_all(rows, chunk_len) == interpret_all(rows.take(k), chunk_len),
    decreases rows.len() - k,
{
    if k < rows.len() {
        assert(rows.take(k + 1).drop_last() =~= rows.take(k));
        lemma_error_persists(rows, chunk_len, k + 1);
    } else {
        assert(rows.take(k) =~= rows);
    }
}

/// Every travel time of an answer names a destination inside the chunk.
pub proof fn lemma_destinations_in_chunk(rows: Seq<RawRowView>, chunk_len: usize)
    ensures
        interpret_all(rows, chunk_len) matches Ok(found) ==> forall|i: int|
            0 <= i < found.len() ==> (#[trigger] found[i]).destination < chunk_len,
    decreases rows.len(),
{
    if rows.len() > 0 {
        lemma_destinations_in_chunk(rows.drop_last(), chunk_len);
    }
}

/// Whether two texts are the same.
pub(crate) fn same_text(a: &str, b: &str) -> (same: bool)
    ensures
        same == (a@ == b@),
{
    let left = a.to_owned();
    let right = b.to_owned();
    left == right
}

/// Says what one row means for a chunk of `chunk_len` destinations.
pub fn interpret_row(row: &RawRow, chunk_len: usize) -> (r: Result<Option<RouteTime>, Error>)
    ensures
        r == interpret(row@, chunk_len),
{
    let condition = match &row.condition {
        Some(c) => c,
        None => return Err(Error::Routing(RoutingError::Malformed)),
    };
    if same_text(condition.as_str(), "ROUTE_NOT_FOUND") {
        return Ok(None);
    }
    if !same_text(condition.as_str(), "ROUTE_EXISTS") {
        return Err(Error::Routing(RoutingError::UnexpectedCondition));
    }
    let duration = match &row.duration {
        Some(d) => d,
        None => return Err(Error::Routing(RoutingError::Malformed)),
    };
    let seconds = match parse_duration(duration.as_str()) {
        Ok(n) => n,
        Err(_) => return Err(Error::Parse),
    };
    match row.destination_index {
        Some(j) => {
            if j < chunk_len as u64 {
                Ok(Some(RouteTime { destination: j as usize, seconds }))
            } else {
                Err(Error::Routing(RoutingError::Malformed))
            }
        },
        None => Err(Error::Routing(RoutingError::Malformed)),
    }
}

/// Says what a whole answer means for a chunk of `chunk_len` destinations:
/// its travel times in row order, or the first row's error.
pub fn interpret_rows(rows: &Vec<RawRow>, chunk_len: usize) -> (r: Result<Vec<RouteTime>, Error>)
    ensures
        match interpret_all(row_views(rows@), chunk_len) {
            Ok(found) => r matches Ok(times) && times@ == found,
            Err(e) => r == Err::<Vec<RouteTime>, Error>(e),
        },
{
    let ghost views = row_views(rows@);
    let mut times: Vec<RouteTime> = Vec::new();
    let mut i: usize = 0;
    while i < rows.len()
        invariant
            i <= rows.len(),
            views == row_views(rows@),
            interpret_all(views.take(i as int), chunk_len) == Ok::<Seq<RouteTime>, Error>(times@),
        decreases rows.len() - i,
    {
        let outcome = interpret_row(&rows[i], chunk_len);
        proof {
            assert(views.take(i + 1).drop_last() =~= views.take(i as int));
            assert(views.take(i + 1).last() == rows[i as int]@);
        }
        match outcome {
            Err(e) => {
                proof {
                    lemma_error_persists(views, chunk_len, i + 1);
                }
                return Err(e);
            },
            Ok(None) => {},
            Ok(Some(t)) => {
                times.push(t);
            },
        }
        i += 1;
    }
    proof {
        assert(views.take(i as int) =~= views);
    }
    Ok(times)
}

/// The raw row held by one element of the answer.
pub open spec fn raw_row_of(element: serde_json::Value) -> RawRowView {
    RawRowView {
        destination_index: match json_member(element, "destinationIndex"@) {
            Some(m) => json_unsigned(m),
            None => None,
        },
        condition: match json_member(element, "condition"@) {
            Some(m) => json_text(m),
            None => None,
        },
        duration: match json_member(element, "duration"@) {
            Some(m) => json_text(m),
            None => None,
        },
    }
}

/// The raw rows of an answer body: the body must be a JSON array, and each
/// element gives one row.
pub open spec fn rows_of(body: Seq<char>) -> Result<Seq<RawRowView>, Error> {
    match json_document(body) {
        None => Err(Error::Routing(RoutingError::Malformed)),
        Some(doc) => match json_items(doc) {
            None => Err(Error::Routing(RoutingError::Malformed)),
            Some(elements) => Ok(Seq::new(elements.len(), |i: int| raw_row_of(elements[i]))),
        },
    }
}

/// Reads the raw row out of one element of the answer.
fn read_row(element: &serde_json::Value) -> (row: RawRow)
    ensures
        row@ == raw_row_of(*element),
{
    let destination_index = match member(element, "destinationIndex") {
        Some(m) => unsigned(m),
        None => None,
    };
    let condition = match member(element, "condition") {
        Some(m) => text(m),
        None => None,
    };
    let duration = match member(element, "duration") {
        Some(m) => text(m),
        None => None,
    };
    RawRow { destination_index, condition, duration }
}

/// Reads the raw rows out of an answer body.
///
/// Fails with a malformed-answer routing error where the body is not JSON
/// or not an array.
pub fn read_rows(body: &str) -> (r: Result<Vec<RawRow>, Error>)
    ensures
        match rows_of(body@) {
            Ok(views) => r matches Ok(rows) && row_views(rows@) == views,
            Err(e) => r == Err::<Vec<RawRow>, Error>(e),
        },
{
    let doc = match document(body) {
        Some(d) => d,
        None => return Err(Error::Routing(RoutingError::Malformed)),
    };
    let elements = match items(&doc) {
        Some(a) => a,
        None => return Err(Error::Routing(RoutingError::Malformed)),
    };
    let mut rows: Vec<RawRow> = Vec::new();
    let mut i: usize = 0;
    while i < elements.len()
        invariant
            i <= elements.len(),
            rows.len() == i,
            forall|k: int| 0 <= k < i ==> (#[trigger] rows[k])@ == raw_row_of(elements[k]),
        decreases elements.len() - i,
    {
        rows.push(read_row(&elements[i]));
        i += 1;
    }
    proof {
        assert(row_views(rows@) =~= Seq::new(elements@.len(), |i: int| raw_row_of(elements@[i])));
    }
    Ok(rows)
}

/// The travel times an answer gives for a chunk of `chunk_len`
/// destinations: the status must report success, the body must hold rows,
/// and no row may be in error.
pub open spec fn matrix_times(status: u16, body: Seq<char>, chunk_len: usize) -> Result<
    Seq<RouteTime>,
    Error,
> {
    if !is_success(status) {
        Err(Error::Routing(RoutingError::Status(status)))
    } else {
        match rows_of(body) {
            Err(e) => Err(e),
            Ok(rows) => interpret_all(rows, chunk_len),
        }
    }
}

/// Decodes the provider's answer for a chunk of `chunk_len` destinations.
pub fn decode_matrix(status: u16, body: &str, chunk_len: usize) -> (r: Result<Vec<RouteTime>, Error>)
    ensures
        match matrix_times(status, body@, chunk_len) {
            Ok(found) => r matches Ok(times) && times@ == found,
            Err(e) => r == Err::<Vec<RouteTime>, Error>(e),
        },
{
    match check_status(status) {
        Err(e) => return Err(e),
        Ok(()) => {},
    }
    let rows = match read_rows(body) {
        Ok(rows) => rows,
        Err(e) => return Err(e),
    };
    interpret_rows(&rows, chunk_len)
}

} // verus!
