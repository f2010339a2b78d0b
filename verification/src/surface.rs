use vstd::prelude::*;

verus! {

/// A floor surface, in square meters.
#[derive(Clone, Copy, Eq, PartialEq, Structural, Debug)]
pub struct Surface(pub u16);

/// How many seats a stretch of floor space may hold: `positions` seats for
/// every started batch of `per_square_meter` square meters.
#[derive(Debug, Clone, Copy, PartialEq, Eq, Structural)]
pub struct PositionsConstraints {
    pub positions: u8,
    pub per_square_meter: u16,
}

impl Surface {
    pub fn from_square_meters(square_meters: u16) -> (r: Self)
        ensures
            r.0 == square_meters,
    {
        Self(square_meters)
    }

    pub fn to_square_meters(&self) -> (r: u16)
        ensures
            r == self.0,
    {
        self.0
    }

    /// The per-surface seating rule: 5 seats per every 7 m² for surfaces
    /// above 60 m², per every 8 m² otherwise.
    pub fn get_positions_constraints(&self) -> (r: PositionsConstraints)
        ensures
            r.positions == 5,
            r.per_square_meter == (if self.0 > 60 {
                7int
            } else {
                8int
            }),
    {
        PositionsConstraints {
            positions: 5,
            per_square_meter: if self.0 > 60 {
                7
            } else {
                8
            },
        }
    }
}

} // verus!
