use vstd::prelude::*;

use crate::address::Address;
use crate::date::{now_timestamp, Timestamp};
use crate::id::{RealOfficeId, SubdivisionId, UserId};
use crate::position::{
    spec_available_positions_error, AvailablePositions, AvailablePositionsError, PositionPrice,
};
use crate::surface::Surface;

verus! {

/// A part of a parent surface: at most as large as the surface it was
/// carved out of.
#[derive(Debug, Clone, Copy, PartialEq, Eq, Structural)]
pub struct SubdividedSurface(pub Surface);

#[derive(Debug, Clone, Copy, PartialEq, Eq, Structural)]
pub enum SubdividedSurfaceError {
    CannotBeLargerThanParent,
}

impl SubdividedSurface {
    pub fn from_surface(surface: Surface, square_meters: u16) -> (r: Result<
        Self,
        SubdividedSurfaceError,
    >)
        ensures
            r is Ok <==> square_meters <= surface.0,
            r matches Ok(s) ==> s.0.0 == square_meters,
            r matches Err(e) ==> e == SubdividedSurfaceError::CannotBeLargerThanParent,
    {
        if square_meters > surface.to_square_meters() {
            return Err(SubdividedSurfaceError::CannotBeLargerThanParent);
        }
        Ok(Self(Surface::from_square_meters(square_meters)))
    }
}

/// A seat count for one part of a split office: strictly below the
/// parent's count and valid for the part's own surface.
#[derive(Debug, Clone, Copy, PartialEq, Eq, Structural)]
pub struct SubdividedAvailablePositions {
    pub subdivided_surface: SubdividedSurface,
    pub available_positions: u16,
}

#[derive(Debug, Clone, Copy, PartialEq, Eq, Structural)]
pub enum SubdividedAvailablePositionsError {
    CannotBeLargerThanParent,
    AvailablePositionsBubbledError(AvailablePositionsError),
}

/// What `SubdividedAvailablePositions::new` reports: the count must stay
/// below the parent's and pass the plain seat-count validation on the
/// part's surface.
pub open spec fn spec_subdivided_available_positions_error(
    available_positions: u16,
    surface: SubdividedSurface,
    parent_available_positions: AvailablePositions,
) -> Option<SubdividedAvailablePositionsError> {
    if available_positions >= parent_available_positions.0 {
        Some(SubdividedAvailablePositionsError::CannotBeLargerThanParent)
    } else if spec_available_positions_error(available_positions, surface.0) is Some {
        Some(
            SubdividedAvailablePositionsError::AvailablePositionsBubbledError(
                spec_available_positions_error(available_positions, surface.0)->Some_0,
            ),
        )
    } else {
        None
    }
}

impl SubdividedAvailablePositions {
    pub fn new(
        available_positions: u16,
        surface: SubdividedSurface,
        parent_available_positions: &AvailablePositions,
    ) -> (r: Result<Self, SubdividedAvailablePositionsError>)
        ensures
            r is Ok <==> spec_subdivided_available_positions_error(
                available_positions,
                surface,
                *parent_available_positions,
            ) is None,
            r matches Ok(p) ==> p.available_positions == available_positions
                && p.subdivided_surface == surface,
            r matches Err(e) ==> Some(e) == spec_subdivided_available_positions_error(
                available_positions,
                surface,
                *parent_available_positions,
            ),
    {
        if available_positions >= parent_available_positions.get_available_positions() {
            return Err(SubdividedAvailablePositionsError::CannotBeLargerThanParent);
        }
        match AvailablePositions::new(available_positions, surface.0) {
            Err(err) => Err(SubdividedAvailablePositionsError::AvailablePositionsBubbledError(err)),
            Ok(_) => Ok(Self { subdivided_surface: surface, available_positions }),
        }
    }
}

/// One part of a split office as a standalone value object: keeps the
/// parent's address and owner, carries its own validated capacity and
/// price, and points back at the real office it was carved out of.
#[derive(Debug)]
pub struct OfficeSubdivision {
    pub id: SubdivisionId,
    pub created_at: Timestamp,
    pub name: String,
    pub address: Address,
    pub owner: UserId,
    pub available_positions: SubdividedAvailablePositions,
    pub position_price_per_month: PositionPrice,
    pub parent_office: RealOfficeId,
}

impl OfficeSubdivision {
    /// A new subdivision with a fresh identifier and the current creation
    /// time.
    pub fn new(
        name: String,
        address: Address,
        owner: UserId,
        available_positions: SubdividedAvailablePositions,
        position_price_per_month: PositionPrice,
        parent_office: RealOfficeId,
    ) -> (r: Self)
        ensures
            r.name == name,
            r.address == address,
            r.owner == owner,
            r.available_positions == available_positions,
            r.position_price_per_month == position_price_per_month,
            r.parent_office == parent_office,
    {
        Self {
            id: SubdivisionId::new(),
            created_at: now_timestamp(),
            name,
            address,
            owner,
            available_positions,
            position_price_per_month,
            parent_office,
        }
    }
}

} // verus!
