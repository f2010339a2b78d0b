use sora::id::{OfficeId, UserId};
use sora::office::{Office, OfficeDivisionError, OfficeError, OfficeSplit, OfficeSplitError};
use sora::position::{AvailablePositions, PositionPrice};
use sora::subdivision::{SubdividedAvailablePositions, SubdividedSurface};
use sora::surface::Surface;
use sora::validator::{
    position_count_constraint_for_surface, validate_available_positions_for_surface,
    AvailablePositionsError,
};

fn valid_office(owner: UserId) -> Office {
    Office::new_real(
        "yo".to_string(),
        "10 my address".to_string(),
        63_272_813,
        123_614_270,
        owner,
        120,
        500,
        30_000,
    )
    .unwrap()
}

#[test]
fn test_invalid_coordinates() {
    let cases: [(i64, i64); 4] = [
        (-193_614_270, 63_272_813),
        (193_614_270, 63_272_813),
        (123_614_270, -93_272_813),
        (123_614_270, 93_272_813),
    ];
    for (longitude, latitude) in cases {
        let office = Office::new_real(
            "yo".to_string(),
            "10 my address".to_string(),
            latitude,
            longitude,
            UserId::new(),
            120,
            500,
            30_000,
        );

        if let Err(err) = office {
            assert!(matches!(
                err,
                OfficeError::LatitudeOutOfBounds(_) | OfficeError::LongitudeOutOfBounds(_)
            ));
        } else {
            assert!(false);
        }
    }
}

#[test]
fn new_real_rejects_invalid_positions_and_price() {
    let office = Office::new_real(
        "yo".to_string(),
        "10 my address".to_string(),
        0,
        0,
        UserId::new(),
        30,
        500,
        30_000,
    );
    assert!(matches!(
        office,
        Err(OfficeError::AvailablePositionsError(
            AvailablePositionsError::AvailablePositionsOutOfBounds(30)
        ))
    ));

    let office = Office::new_real(
        "yo".to_string(),
        "10 my address".to_string(),
        0,
        0,
        UserId::new(),
        120,
        500,
        90_000,
    );
    assert!(matches!(office, Err(OfficeError::PositionPriceOutOfBounds(90_000))));
}

#[test]
fn new_real_accepts_valid_values() {
    let owner = UserId::new();
    let office = valid_office(owner);
    assert_eq!(office.owner(), owner);
    assert_eq!(office.available_positions(), 120);
    assert_eq!(office.surface(), 500);
    assert_eq!(office.position_price(), 30_000);
    assert_eq!(office.parent_office(), None);
    assert!(matches!(office.id(), OfficeId::RealOffice(_)));
}

#[test]
fn split_requires_at_least_two_parts() {
    let office = valid_office(UserId::new());
    let parts = vec![OfficeSplit::new(120, 500).unwrap()];
    assert!(matches!(
        office.split(parts),
        Err(OfficeSplitError::MustBeDividedInAtLeastTwoParts)
    ));
}

#[test]
fn split_rejects_mismatched_sums() {
    let office = valid_office(UserId::new());
    // surfaces sum to 400, not 500
    let parts = vec![
        OfficeSplit::new(60, 200).unwrap(),
        OfficeSplit::new(60, 200).unwrap(),
    ];
    assert!(matches!(
        office.split(parts),
        Err(OfficeSplitError::TotalSurfaceNotMatching { given: 400, expected: 500 })
    ));

    // surfaces match, seat counts sum to 110, not 120
    let parts = vec![
        OfficeSplit::new(60, 250).unwrap(),
        OfficeSplit::new(50, 250).unwrap(),
    ];
    assert!(matches!(
        office.split(parts),
        Err(OfficeSplitError::TotalAvailablePositionsNotMatching { given: 110, expected: 120 })
    ));
}

#[test]
fn split_partitions_the_parent() {
    let owner = UserId::new();
    let office = valid_office(owner);
    let parts = vec![
        OfficeSplit::new(60, 250).unwrap(),
        OfficeSplit::new(60, 250).unwrap(),
    ];
    let subdivisions = office.split(parts).unwrap();
    assert_eq!(subdivisions.len(), 2);
    for sub in &subdivisions {
        assert_eq!(sub.owner(), owner);
        assert_eq!(sub.name(), office.name());
        assert_eq!(sub.position_price(), office.position_price());
        assert_eq!(sub.available_positions(), 60);
        assert_eq!(sub.surface(), 250);
        assert!(matches!(sub.id(), OfficeId::OfficeSplit(_)));
        match (sub.parent_office(), office.id()) {
            (Some(parent), OfficeId::RealOffice(real)) => assert_eq!(parent, real),
            _ => assert!(false),
        }
    }
    assert_eq!(
        subdivisions.iter().map(|s| s.available_positions()).sum::<usize>(),
        office.available_positions()
    );
    assert_eq!(
        subdivisions.iter().map(|s| s.surface()).sum::<usize>(),
        office.surface()
    );
}

#[test]
fn subdivision_cannot_be_subdivided() {
    let office = valid_office(UserId::new());
    let parts = vec![
        OfficeSplit::new(60, 250).unwrap(),
        OfficeSplit::new(60, 250).unwrap(),
    ];
    let subdivisions = office.split(parts).unwrap();
    let again = vec![
        OfficeSplit::new(40, 125).unwrap(),
        OfficeSplit::new(40, 125).unwrap(),
    ];
    assert!(matches!(
        subdivisions[0].split(again),
        Err(OfficeSplitError::OfficeSubdivisionCannotBeSubdivided)
    ));
}

#[test]
fn with_out_of_bounds_count() {
    for available_positions in [39usize, 181] {
        let error = validate_available_positions_for_surface(available_positions, 40);
        assert_eq!(
            Some(AvailablePositionsError::AvailablePositionsOutOfBounds(available_positions)),
            error
        );
    }
}

#[test]
fn with_count_too_large_for_given_surface() {
    for (available_positions, surface, maximum_positions) in
        [(106usize, 150usize, 105usize), (55, 75, 50)]
    {
        let error = validate_available_positions_for_surface(available_positions, surface);
        assert_eq!(
            Some(AvailablePositionsError::TooMuchAvailablePositionsForGivenSurface {
                available_positions,
                max_positions_for_given_surface: maximum_positions,
            }),
            error
        );
    }
}

#[test]
fn with_valid_positions() {
    for (available_positions, surface) in [(105usize, 150usize), (50, 75)] {
        let error = validate_available_positions_for_surface(available_positions, surface);
        assert!(error.is_none());
    }
}

#[test]
fn test_surface_position_constraints() {
    for (surface, expected_count_per_square_meters) in [(65usize, 7usize), (122, 7), (55, 8)] {
        assert_eq!(
            expected_count_per_square_meters,
            position_count_constraint_for_surface(surface).per_square_meter
        );
    }
}

fn divide_part() -> (SubdividedAvailablePositions, PositionPrice) {
    let parent_surface = Surface::from_square_meters(512);
    let parent_positions = AvailablePositions::new(90, parent_surface).unwrap();
    let part_surface = SubdividedSurface::from_surface(parent_surface, 256).unwrap();
    (
        SubdividedAvailablePositions::new(45, part_surface, &parent_positions).unwrap(),
        PositionPrice::from_cents(30_000).unwrap(),
    )
}

#[test]
fn divide_requires_at_least_two_parts() {
    let office = valid_office(UserId::new());
    assert_eq!(
        Err(OfficeDivisionError::MustBeDividedInAtLeastTwoParts),
        office.divide(vec![divide_part()]).map(|v| v.len())
    );
}

#[test]
fn divide_produces_standalone_subdivisions() {
    let owner = UserId::new();
    let office = valid_office(owner);
    let subdivisions = office.divide(vec![divide_part(), divide_part()]).unwrap();
    assert_eq!(subdivisions.len(), 2);
    for sub in &subdivisions {
        assert_eq!(sub.owner, owner);
        assert_eq!(&sub.name, office.name());
        assert_eq!(sub.position_price_per_month.to_cents(), 30_000);
        assert_eq!(sub.available_positions.available_positions, 45);
        match office.id() {
            OfficeId::RealOffice(real) => assert_eq!(sub.parent_office, real),
            _ => assert!(false),
        }
    }
}
