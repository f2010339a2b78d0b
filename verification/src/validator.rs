use vstd::prelude::*;

verus! {

/// How many seats a stretch of floor space may hold: `positions` seats for
/// every started batch of `per_square_meter` square meters.
#[derive(Debug, Clone, Copy, PartialEq, Eq, Structural)]
pub struct PositionsConstraints {
    pub positions: usize,
    pub per_square_meter: usize,
}

/// The per-surface seating rule: 5 seats per every 7 m² for surfaces above
/// 60 m², per every 8 m² otherwise.
pub fn position_count_constraint_for_surface(surface: usize) -> (r: PositionsConstraints)
    ensures
        r.positions == 5,
        r.per_square_meter == (if surface > 60 {
            7int
        } else {
            8int
        }),
{
    PositionsConstraints {
        positions: 5,
        per_square_meter: if surface > 60 {
            7
        } else {
            8
        },
    }
}

/// The seat capacity `surface` square meters admit:
/// `floor(surface / k) * 5` with `k = 7` if `surface > 60`, else `k = 8`.
pub open spec fn max_positions_for_surface(surface: int) -> int {
    (surface / (if surface > 60 {
        7int
    } else {
        8int
    })) * 5
}

#[derive(Debug, Clone, Copy, PartialEq, Eq, Structural)]
pub enum AvailablePositionsError {
    AvailablePositionsOutOfBounds(usize),
    TooMuchAvailablePositionsForGivenSurface {
        available_positions: usize,
        max_positions_for_given_surface: usize,
    },
}

/// What `validate_available_positions_for_surface` reports: the seat count
/// must lie in `[40, 180]` and within the capacity the surface admits.
pub open spec fn spec_validate_available_positions(
    available_positions: usize,
    surface: usize,
) -> Option<AvailablePositionsError> {
    if available_positions < 40 || available_positions > 180 {
        Some(AvailablePositionsError::AvailablePositionsOutOfBounds(available_positions))
    } else if available_positions as int > max_positions_for_surface(surface as int) {
        Some(
            AvailablePositionsError::TooMuchAvailablePositionsForGivenSurface {
                available_positions,
                max_positions_for_given_surface: max_positions_for_surface(surface as int) as usize,
            },
        )
    } else {
        None
    }
}

/// Check a seat count against the absolute bounds `[40, 180]` and against
/// the capacity of the given surface; `None` means the count is acceptable.
pub fn validate_available_positions_for_surface(
    available_positions: usize,
    surface: usize,
) -> (r: Option<AvailablePositionsError>)
    ensures
        r == spec_validate_available_positions(available_positions, surface),
{
    if available_positions < 40 || available_positions > 180 {
        return Some(AvailablePositionsError::AvailablePositionsOutOfBounds(available_positions));
    }
    let positions_constraints = position_count_constraint_for_surface(surface);
    let positions_batch_count = surface / positions_constraints.per_square_meter;
    proof {
        assert((surface as int / 7int) * 5int <= surface as int && (surface as int / 8int) * 5int
            <= surface as int) by (nonlinear_arith)
            requires
                surface as int >= 0,
        ;
    }
    let max_positions_for_given_surface = positions_batch_count * positions_constraints.positions;
    if available_positions > max_positions_for_given_surface {
        return Some(
            AvailablePositionsError::TooMuchAvailablePositionsForGivenSurface {
                available_positions,
                max_positions_for_given_surface,
            },
        );
    }
    None
}

} // verus!
