use vstd::prelude::*;

use crate::surface::Surface;

verus! {

/// Least admissible price of one seat, in cents per month.
pub const POSITION_PRICE_MIN_IN_CENTS: u32 = 30000;

/// Greatest admissible price of one seat, in cents per month.
pub const POSITION_PRICE_MAX_IN_CENTS: u32 = 80000;

/// A monthly price per seat, in cents, within the admissible bounds.
#[derive(Eq, PartialEq, Structural, Clone, Copy, Debug)]
pub struct PositionPrice {
    pub cents: u32,
}

#[derive(Debug, Clone, Copy, PartialEq, Eq, Structural)]
pub enum PositionPriceError {
    OutOfBounds,
}

impl PositionPrice {
    pub fn from_cents(cents: u32) -> (r: Result<Self, PositionPriceError>)
        ensures
            r is Ok <==> POSITION_PRICE_MIN_IN_CENTS <= cents <= POSITION_PRICE_MAX_IN_CENTS,
            r matches Ok(p) ==> p.cents == cents,
            r matches Err(e) ==> e == PositionPriceError::OutOfBounds,
    {
        if cents < POSITION_PRICE_MIN_IN_CENTS || cents > POSITION_PRICE_MAX_IN_CENTS {
            return Err(PositionPriceError::OutOfBounds);
        }
        Ok(Self { cents })
    }

    pub fn to_cents(&self) -> (r: u32)
        ensures
            r == self.cents,
    {
        self.cents
    }
}

/// Least admissible seat count of an office.
pub const AVAILABLE_POSITIONS_MIN: u16 = 40;

/// Greatest admissible seat count of an office.
pub const AVAILABLE_POSITIONS_MAX: u16 = 180;

/// A validated seat count: within the absolute bounds and within the
/// capacity of the surface it was validated against.
#[derive(Eq, PartialEq, Structural, Clone, Copy, Debug)]
pub struct AvailablePositions(pub u16);

#[derive(Debug, Clone, Copy, PartialEq, Eq, Structural)]
pub enum AvailablePositionsError {
    OutOfBounds,
    TooBigForGivenSurface { max_positions_for_given_surface: u16 },
}

/// The seat capacity a surface admits: `floor(m² / k) * 5` with `k = 7` for
/// surfaces above 60 m², else `k = 8`.
pub open spec fn spec_max_positions(surface: Surface) -> int {
    (surface.0 as int / (if surface.0 > 60 {
        7int
    } else {
        8int
    })) * 5
}

/// What `AvailablePositions::new` reports: the count must lie in
/// `[AVAILABLE_POSITIONS_MIN, AVAILABLE_POSITIONS_MAX]` and within the
/// surface capacity.
pub open spec fn spec_available_positions_error(available_positions: u16, surface: Surface) -> Option<
    AvailablePositionsError,
> {
    if available_positions < AVAILABLE_POSITIONS_MIN || available_positions
        > AVAILABLE_POSITIONS_MAX {
        Some(AvailablePositionsError::OutOfBounds)
    } else if available_positions as int > spec_max_positions(surface) {
        Some(
            AvailablePositionsError::TooBigForGivenSurface {
                max_positions_for_given_surface: spec_max_positions(surface) as u16,
            },
        )
    } else {
        None
    }
}

impl AvailablePositions {
    pub fn new(available_positions: u16, surface: Surface) -> (r: Result<
        Self,
        AvailablePositionsError,
    >)
        ensures
            r is Ok <==> spec_available_positions_error(available_positions, surface) is None,
            r matches Ok(p) ==> p.0 == available_positions,
            r matches Err(e) ==> Some(e) == spec_available_positions_error(
                available_positions,
                surface,
            ),
    {
        if available_positions < AVAILABLE_POSITIONS_MIN || available_positions
            > AVAILABLE_POSITIONS_MAX {
            return Err(AvailablePositionsError::OutOfBounds);
        }
        let positions_constraints = surface.get_positions_constraints();
        let positions_batch_count = surface.to_square_meters()
            / positions_constraints.per_square_meter;
        proof {
            assert((surface.0 as int / 7int) * 5int <= 46811 && (surface.0 as int / 8int) * 5int
                <= 46811) by (nonlinear_arith)
                requires
                    0 <= surface.0 as int <= 65535,
            ;
        }
        let max_positions_for_given_surface = positions_batch_count
            * (positions_constraints.positions as u16);
        if available_positions > max_positions_for_given_surface {
            return Err(
                AvailablePositionsError::TooBigForGivenSurface { max_positions_for_given_surface },
            );
        }
        Ok(Self(available_positions))
    }

    pub fn get_available_positions(&self) -> (r: u16)
        ensures
            r == self.0,
    {
        self.0
    }
}

} // verus!
