//! The geocoder: an address is looked up in the coordinate cache first, and
//! only a miss is taken to the provider, whose answer is then remembered.

use crate::cache::{write_once, CoordinateCache};
use crate::error::{Error, GeocodeError};
use crate::json::{
    document, items, json_document, json_items, json_member, json_number_bits, member,
    number_bits,
};
use crate::model::Coordinates;
use vstd::prelude::*;

verus! {

/// The position a candidate gives: both components must be numbers.
pub open spec fn spec_location_from(longitude: Option<u64>, latitude: Option<u64>) -> Result<
    Coordinates,
    Error,
> {
    match (longitude, latitude) {
        (Some(lng), Some(lat)) => Ok(Coordinates { longitude_bits: lng, latitude_bits: lat }),
        _ => Err(Error::Geocode(GeocodeError::Malformed)),
    }
}

/// Builds a position from the two numbers of a candidate, each given as the
/// bit pattern of its double, or `None` where the candidate lacks it.
pub fn location_from(longitude: Option<u64>, latitude: Option<u64>) -> (r: Result<
    Coordinates,
    Error,
>)
    ensures
        r == spec_location_from(longitude, latitude),
{
    match (longitude, latitude) {
        (Some(lng), Some(lat)) => Ok(Coordinates { longitude_bits: lng, latitude_bits: lat }),
        _ => Err(Error::Geocode(GeocodeError::Malformed)),
    }
}

/// The number stored under `key` in a JSON object, as a bit pattern.
pub open spec fn member_bits(object: serde_json::Value, key: Seq<char>) -> Option<u64> {
    match json_member(object, key) {
        Some(m) => json_number_bits(m),
        None => None,
    }
}

/// The position the geocoding answer gives: that of the first element of
/// `results`.
///
/// - not JSON: malformed;
/// - no `results` member, or an empty one: no candidate;
/// - `results` not an array, or a first element without a `location` that
///   holds numbers `longitude` and `latitude`: malformed.
pub open spec fn geocoded(body: Seq<char>) -> Result<Coordinates, Error> {
    match json_document(body) {
        None => Err(Error::Geocode(GeocodeError::Malformed)),
        Some(doc) => match json_member(doc, "results"@) {
            None => Err(Error::Geocode(GeocodeError::NoCandidate)),
            Some(results) => match json_items(results) {
                None => Err(Error::Geocode(GeocodeError::Malformed)),
                Some(candidates) => if candidates.len() == 0 {
                    Err(Error::Geocode(GeocodeError::NoCandidate))
                } else {
                    match json_member(candidates[0], "location"@) {
                        None => Err(Error::Geocode(GeocodeError::Malformed)),
                        Some(location) => spec_location_from(
                            member_bits(location, "longitude"@),
                            member_bits(location, "latitude"@),
                        ),
                    }
                },
            },
        },
    }
}

/// Decodes the geocoding provider's answer.
pub fn decode_geocode(body: &str) -> (r: Result<Coordinates, Error>)
    ensures
        r == geocoded(body@),
{
    let doc = match document(body) {
        Some(d) => d,
        None => return Err(Error::Geocode(GeocodeError::Malformed)),
    };
    let results = match member(&doc, "results") {
        Some(r) => r,
        None => return Err(Error::Geocode(GeocodeError::NoCandidate)),
    };
    let candidates = match items(results) {
        Some(c) => c,
        None => return Err(Error::Geocode(GeocodeError::Malformed)),
    };
    if candidates.len() == 0 {
        return Err(Error::Geocode(GeocodeError::NoCandidate));
    }
    let location = match member(&candidates[0], "location") {
        Some(l) => l,
        None => return Err(Error::Geocode(GeocodeError::Malformed)),
    };
    let longitude = match member(location, "longitude") {
        Some(m) => number_bits(m),
        None => None,
    };
    let latitude = match member(location, "latitude") {
        Some(m) => number_bits(m),
        None => None,
    };
    location_from(longitude, latitude)
}

/// Remembers a freshly fetched position and returns the position the cache
/// holds for the address afterwards: the fetched one, unless an earlier
/// write got there first.
pub fn settle(cache: &mut CoordinateCache, address: &str, fetched: Coordinates) -> (held:
    Coordinates)
    ensures
        final(cache)@ == write_once(old(cache)@, address@, fetched),
        final(cache)@.contains_key(address@),
        held == final(cache)@[address@],
{
    cache.set_if_absent(address, fetched);
    match cache.get(address) {
        Some(held) => held,
        None => fetched,
    }
}

/// Completes a cache miss with the provider's answer: decodes it, remembers
/// the position and returns it. A failed answer leaves the cache as it was.
/// After success the address is in the cache, so resolving it again needs no
/// provider.
pub fn resolve_answer(cache: &mut CoordinateCache, address: &str, body: &str) -> (r: Result<
    Coordinates,
    Error,
>)
    ensures
        match geocoded(body@) {
            Ok(fetched) => {
                &&& final(cache)@ == write_once(old(cache)@, address@, fetched)
                &&& final(cache)@.contains_key(address@)
                &&& r == Ok::<Coordinates, Error>(final(cache)@[address@])
            },
            Err(e) => r == Err::<Coordinates, Error>(e) && final(cache)@ == old(cache)@,
        },
{
    match decode_geocode(body) {
        Ok(fetched) => Ok(settle(cache, address, fetched)),
        Err(e) => Err(e),
    }
}

} // verus!
