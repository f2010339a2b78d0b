use vstd::prelude::*;

verus! {

/// Largest admissible longitude, in microdegrees (180 degrees).
pub const LONGITUDE_BOUNDARY: i64 = 180_000_000;

/// Largest admissible latitude, in microdegrees (90 degrees).
pub const LATITUDE_BOUNDARY: i64 = 90_000_000;

/// A point on the globe, in microdegrees: longitude within ±180 degrees,
/// latitude within ±90 degrees.
#[derive(Debug, PartialEq, Eq, Structural, Clone, Copy)]
pub struct Coordinates {
    pub longitude: i64,
    pub latitude: i64,
}

#[derive(Debug, Clone, Copy, PartialEq, Eq, Structural)]
pub enum CoordinatesError {
    LongitudeOutOfBound(i64),
    LatitudeOutOfBound(i64),
}

impl Coordinates {
    pub fn new(longitude: i64, latitude: i64) -> (r: Result<Self, CoordinatesError>)
        ensures
            r is Ok <==> (-LONGITUDE_BOUNDARY <= longitude <= LONGITUDE_BOUNDARY
                && -LATITUDE_BOUNDARY <= latitude <= LATITUDE_BOUNDARY),
            r matches Ok(c) ==> c.longitude == longitude && c.latitude == latitude,
            r matches Err(e) ==> e == (if !(-LONGITUDE_BOUNDARY <= longitude
                <= LONGITUDE_BOUNDARY) {
                CoordinatesError::LongitudeOutOfBound(longitude)
            } else {
                CoordinatesError::LatitudeOutOfBound(latitude)
            }),
    {
        if longitude < -LONGITUDE_BOUNDARY || longitude > LONGITUDE_BOUNDARY {
            Err(CoordinatesError::LongitudeOutOfBound(longitude))
        } else if latitude < -LATITUDE_BOUNDARY || latitude > LATITUDE_BOUNDARY {
            Err(CoordinatesError::LatitudeOutOfBound(latitude))
        } else {
            Ok(Self { longitude, latitude })
        }
    }
}

/// A postal address together with its validated coordinates.
#[derive(Debug)]
pub struct Address {
    pub readable_name: String,
    pub coordinates: Coordinates,
}

impl Address {
    pub fn new(readable_name: String, coordinates: Coordinates) -> (r: Self)
        ensures
            r.readable_name == readable_name,
            r.coordinates == coordinates,
    {
        Self { readable_name, coordinates }
    }
}

} // verus!
