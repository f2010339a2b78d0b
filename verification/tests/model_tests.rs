use sora::address::{Address, Coordinates, CoordinatesError};
use sora::id::UserId;
use sora::position::{AvailablePositions, AvailablePositionsError, PositionPrice, PositionPriceError};
use sora::subdivision::{
    SubdividedAvailablePositions, SubdividedAvailablePositionsError, SubdividedSurface,
    SubdividedSurfaceError,
};
use sora::surface::Surface;

#[test]
fn test_constraints() {
    for (square_meters, expected_per_square_meter) in [(65u16, 7u16), (122, 7), (55, 8)] {
        let surface = Surface::from_square_meters(square_meters);
        assert_eq!(
            expected_per_square_meter,
            surface.get_positions_constraints().per_square_meter
        );
        assert_eq!(5, surface.get_positions_constraints().positions);
    }
}

#[test]
fn surface_round_trips_square_meters() {
    let surface = Surface::from_square_meters(321);
    assert_eq!(321, surface.to_square_meters());
}

#[test]
fn price_with_invalid_values() {
    for cents in [25_000u32, 85_000] {
        let price = PositionPrice::from_cents(cents);
        assert_eq!(Err(PositionPriceError::OutOfBounds), price);
    }
}

#[test]
fn price_with_valid_values() {
    for cents in [30_000u32, 80_000, 55_000] {
        let price = PositionPrice::from_cents(cents);
        assert!(price.is_ok());
        assert_eq!(cents, price.unwrap().to_cents());
    }
}

#[test]
fn positions_with_out_of_bounds_count() {
    for available_positions in [39u16, 181] {
        let positions =
            AvailablePositions::new(available_positions, Surface::from_square_meters(40));
        assert_eq!(Err(AvailablePositionsError::OutOfBounds), positions);
    }
}

#[test]
fn positions_with_count_too_large_for_given_surface() {
    for (available_positions, surface, maximum_positions) in [(106u16, 150u16, 105u16), (55, 75, 50)] {
        let positions =
            AvailablePositions::new(available_positions, Surface::from_square_meters(surface));
        assert_eq!(
            Err(AvailablePositionsError::TooBigForGivenSurface {
                max_positions_for_given_surface: maximum_positions,
            }),
            positions
        );
    }
}

#[test]
fn positions_with_valid_positions() {
    for (available_positions, surface) in [(105u16, 150u16), (50, 75)] {
        let positions =
            AvailablePositions::new(available_positions, Surface::from_square_meters(surface));
        assert_eq!(Ok(AvailablePositions(available_positions)), positions);
    }
}

#[test]
fn with_value_larger_than_parent() {
    let surface = Surface::from_square_meters(32);
    assert_eq!(
        Err(SubdividedSurfaceError::CannotBeLargerThanParent),
        SubdividedSurface::from_surface(surface, 34)
    );
}

#[test]
fn with_valid_value() {
    let surface = Surface::from_square_meters(32);
    assert_eq!(
        Ok(SubdividedSurface(Surface::from_square_meters(16))),
        SubdividedSurface::from_surface(surface, 16),
    );
}

#[test]
fn with_invalid_positions() {
    let cases: [(u16, u16, SubdividedAvailablePositionsError); 3] = [
        (50, 45, SubdividedAvailablePositionsError::CannotBeLargerThanParent),
        (
            41,
            80,
            SubdividedAvailablePositionsError::AvailablePositionsBubbledError(
                AvailablePositionsError::TooBigForGivenSurface {
                    max_positions_for_given_surface: 25,
                },
            ),
        ),
        (
            12,
            85,
            SubdividedAvailablePositionsError::AvailablePositionsBubbledError(
                AvailablePositionsError::OutOfBounds,
            ),
        ),
    ];
    for (available_positions, parent_available_positions, expected_error) in cases {
        let parent_surface = Surface::from_square_meters(120);
        let parent_positions =
            AvailablePositions::new(parent_available_positions, parent_surface.clone()).unwrap();

        let subdivided_available_positions = SubdividedAvailablePositions::new(
            available_positions,
            SubdividedSurface::from_surface(parent_surface, 40).unwrap(),
            &parent_positions,
        );

        assert!(subdivided_available_positions.is_err());
        assert_eq!(expected_error, subdivided_available_positions.unwrap_err());
    }
}

#[test]
fn with_valid_position() {
    let parent_surface = Surface::from_square_meters(512);
    let parent_positions = AvailablePositions::new(90, parent_surface.clone()).unwrap();

    let subdivided_surface = SubdividedSurface::from_surface(parent_surface, 300).unwrap();
    let subdivided_available_positions =
        SubdividedAvailablePositions::new(45, subdivided_surface.clone(), &parent_positions);

    assert!(subdivided_available_positions.is_ok());

    let subdivided_available_positions = subdivided_available_positions.unwrap();
    assert_eq!(45, subdivided_available_positions.available_positions);
    assert_eq!(
        subdivided_surface,
        subdivided_available_positions.subdivided_surface
    );
}

#[test]
fn create_coordinates_with_invalid_longitude() {
    for longitude in [181_000_000i64, -181_000_000] {
        let coordinates = Coordinates::new(longitude, 45_000_000);
        assert_eq!(Err(CoordinatesError::LongitudeOutOfBound(longitude)), coordinates);
    }
}

#[test]
fn create_coordinates_with_invalid_latitude() {
    for latitude in [91_000_000i64, -91_000_000] {
        let coordinates = Coordinates::new(45_000_000, latitude);
        assert_eq!(Err(CoordinatesError::LatitudeOutOfBound(latitude)), coordinates);
    }
}

#[test]
fn create_coordinates() {
    let longitude: i64 = 45_158_715;
    let latitude: i64 = -57_847_218;
    let coordinates = Coordinates::new(longitude, latitude);

    assert!(coordinates.is_ok());
    let coordinates = coordinates.unwrap();

    assert_eq!(coordinates.latitude, latitude);
    assert_eq!(coordinates.longitude, longitude);
}

#[test]
fn create_address() {
    let longitude: i64 = 45_158_715;
    let latitude: i64 = -57_847_218;
    let coordinates = Coordinates::new(longitude, latitude);

    assert!(coordinates.is_ok());
    let coordinates = coordinates.unwrap();

    assert_eq!(coordinates.latitude, latitude);
    assert_eq!(coordinates.longitude, longitude);

    let address = Address::new("my_address".to_string(), coordinates.clone());
    assert_eq!("my_address".to_string(), address.readable_name);
    assert_eq!(coordinates, address.coordinates);
}

#[test]
pub fn test_identifiers_generation() {
    // Ensure identifier creation works and round-trips its raw value
    let id = UserId::new();

    id.value();
    let copy = id.clone();
    assert_eq!(copy, id);
    let rebuilt = UserId::from_value(id.value());
    assert_eq!(rebuilt, id);
    let other = UserId::from_value(7);
    assert_eq!(other.value(), 7);
}
