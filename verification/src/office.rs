use vstd::prelude::*;

use crate::address::{Address, Coordinates};
use crate::date::{now_timestamp, Timestamp};
use crate::id::{OfficeId, OfficeSplitId, RealOfficeId, UserId};
use crate::position::PositionPrice;
use crate::subdivision::{OfficeSubdivision, SubdividedAvailablePositions};
use crate::validator::{
    max_positions_for_surface, spec_validate_available_positions, validate_available_positions_for_surface,
    AvailablePositionsError,
};

verus! {

/// Largest admissible latitude, in microdegrees (90 degrees).
pub const LATITUDE_BOUNDARY_MICRODEGREES: i64 = 90_000_000;

/// Largest admissible longitude, in microdegrees (180 degrees).
pub const LONGITUDE_BOUNDARY_MICRODEGREES: i64 = 180_000_000;

/// A rentable office: either a real office (`parent_office` is `None`) or
/// one part of a split office (`parent_office` names the real office it was
/// carved out of). Coordinates are held in microdegrees. Immutable once
/// created.
#[derive(Debug)]
pub struct Office {
    pub id: OfficeId,
    pub created_at: Timestamp,
    pub name: String,
    pub address: String,
    pub latitude: i64,
    pub longitude: i64,
    pub owner: UserId,
    pub available_positions: usize,
    pub surface: usize,
    pub position_price: usize,
    pub parent_office: Option<RealOfficeId>,
}

#[derive(Debug, Clone, Copy, PartialEq, Eq, Structural)]
pub enum OfficeError {
    LatitudeOutOfBounds(i64),
    LongitudeOutOfBounds(i64),
    AvailablePositionsOutOfBounds(usize),
    PositionPriceOutOfBounds(usize),
    AvailablePositionsError(AvailablePositionsError),
}

/// The first reason `Office::new_real` rejects its inputs, if any: the
/// checks run in the order latitude, longitude, seat capacity, price.
pub open spec fn spec_new_real_error(
    latitude: i64,
    longitude: i64,
    available_positions: usize,
    surface: usize,
    position_price: usize,
) -> Option<OfficeError> {
    if !(-LATITUDE_BOUNDARY_MICRODEGREES <= latitude <= LATITUDE_BOUNDARY_MICRODEGREES) {
        Some(OfficeError::LatitudeOutOfBounds(latitude))
    } else if !(-LONGITUDE_BOUNDARY_MICRODEGREES <= longitude <= LONGITUDE_BOUNDARY_MICRODEGREES) {
        Some(OfficeError::LongitudeOutOfBounds(longitude))
    } else if spec_validate_available_positions(available_positions, surface) is Some {
        Some(
            OfficeError::AvailablePositionsError(
                spec_validate_available_positions(available_positions, surface)->Some_0,
            ),
        )
    } else if !(30000 <= position_price <= 80000) {
        Some(OfficeError::PositionPriceOutOfBounds(position_price))
    } else {
        None
    }
}

impl Office {
    /// The domain invariants of office construction: coordinates in range,
    /// seat count within `[40, 180]` and within the surface capacity, price
    /// within `[30000, 80000]` cents.
    pub open spec fn wf(self) -> bool {
        &&& -LATITUDE_BOUNDARY_MICRODEGREES <= self.latitude <= LATITUDE_BOUNDARY_MICRODEGREES
        &&& -LONGITUDE_BOUNDARY_MICRODEGREES <= self.longitude <= LONGITUDE_BOUNDARY_MICRODEGREES
        &&& 40 <= self.available_positions <= 180
        &&& self.available_positions as int <= max_positions_for_surface(self.surface as int)
        &&& 30000 <= self.position_price <= 80000
    }

    /// Decide the domain invariants at run time, for data loaded from
    /// outside the validated constructors.
    pub fn is_valid(&self) -> (r: bool)
        ensures
            r == self.wf(),
    {
        let max = (self.surface / (if self.surface > 60 {
            7
        } else {
            8
        })) * 5;
        proof {
            assert((self.surface as int / 7int) * 5int <= self.surface as int && (self.surface
                as int / 8int) * 5int <= self.surface as int) by (nonlinear_arith)
                requires
                    self.surface as int >= 0,
            ;
        }
        -LATITUDE_BOUNDARY_MICRODEGREES <= self.latitude && self.latitude
            <= LATITUDE_BOUNDARY_MICRODEGREES && -LONGITUDE_BOUNDARY_MICRODEGREES <= self.longitude
            && self.longitude <= LONGITUDE_BOUNDARY_MICRODEGREES && 40 <= self.available_positions
            && self.available_positions <= 180 && self.available_positions <= max && 30000
            <= self.position_price && self.position_price <= 80000
    }

    /// Build a real office after validating every domain invariant; on
    /// success the office gets a fresh real-office identifier, the current
    /// creation time and no parent.
    pub fn new_real(
        name: String,
        address: String,
        latitude: i64,
        longitude: i64,
        owner: UserId,
        available_positions: usize,
        surface: usize,
        position_price: usize,
    ) -> (r: Result<Office, OfficeError>)
        ensures
            r is Ok <==> spec_new_real_error(
                latitude,
                longitude,
                available_positions,
                surface,
                position_price,
            ) is None,
            r matches Err(e) ==> Some(e) == spec_new_real_error(
                latitude,
                longitude,
                available_positions,
                surface,
                position_price,
            ),
            r matches Ok(o) ==> o.name == name && o.address == address && o.latitude == latitude
                && o.longitude == longitude && o.owner == owner && o.available_positions
                == available_positions && o.surface == surface && o.position_price
                == position_price && o.parent_office is None && o.id is RealOffice && o.wf(),
    {
        if latitude < -LATITUDE_BOUNDARY_MICRODEGREES || latitude > LATITUDE_BOUNDARY_MICRODEGREES {
            return Err(OfficeError::LatitudeOutOfBounds(latitude));
        }
        if longitude < -LONGITUDE_BOUNDARY_MICRODEGREES || longitude
            > LONGITUDE_BOUNDARY_MICRODEGREES {
            return Err(OfficeError::LongitudeOutOfBounds(longitude));
        }
        if let Some(error) = validate_available_positions_for_surface(
            available_positions,
            surface,
        ) {
            return Err(OfficeError::AvailablePositionsError(error));
        }
        if position_price < 30000 || position_price > 80000 {
            return Err(OfficeError::PositionPriceOutOfBounds(position_price));
        }
        Ok(
            Office {
                id: OfficeId::RealOffice(RealOfficeId::new()),
                created_at: now_timestamp(),
                name,
                address,
                latitude,
                longitude,
                owner,
                available_positions,
                surface,
                position_price,
                parent_office: None,
            },
        )
    }

    /// Rebuild an office from already-persisted fields, without validation
    /// and without minting a new identifier.
    pub fn new_unchecked(
        id: OfficeId,
        created_at: Timestamp,
        name: String,
        address: String,
        latitude: i64,
        longitude: i64,
        owner: UserId,
        available_positions: usize,
        surface: usize,
        position_price: usize,
        parent_office: Option<RealOfficeId>,
    ) -> (r: Office)
        ensures
            r == (Office {
                id,
                created_at,
                name,
                address,
                latitude,
                longitude,
                owner,
                available_positions,
                surface,
                position_price,
                parent_office,
            }),
    {
        Office {
            id,
            created_at,
            name,
            address,
            latitude,
            longitude,
            owner,
            available_positions,
            surface,
            position_price,
            parent_office,
        }
    }

    pub fn id(&self) -> (r: OfficeId)
        ensures
            r == self.id,
    {
        self.id
    }

    pub fn owner(&self) -> (r: UserId)
        ensures
            r == self.owner,
    {
        self.owner
    }

    pub fn name(&self) -> (r: &String)
        ensures
            r == self.name,
    {
        &self.name
    }

    pub fn address(&self) -> (r: &String)
        ensures
            r == self.address,
    {
        &self.address
    }

    pub fn latitude(&self) -> (r: i64)
        ensures
            r == self.latitude,
    {
        self.latitude
    }

    pub fn longitude(&self) -> (r: i64)
        ensures
            r == self.longitude,
    {
        self.longitude
    }

    pub fn created_at(&self) -> (r: Timestamp)
        ensures
            r == self.created_at,
    {
        self.created_at
    }

    pub fn available_positions(&self) -> (r: usize)
        ensures
            r == self.available_positions,
    {
        self.available_positions
    }

    pub fn surface(&self) -> (r: usize)
        ensures
            r == self.surface,
    {
        self.surface
    }

    pub fn position_price(&self) -> (r: usize)
        ensures
            r == self.position_price,
    {
        self.position_price
    }

    pub fn parent_office(&self) -> (r: Option<RealOfficeId>)
        ensures
            r == self.parent_office,
    {
        self.parent_office
    }
}

#[derive(Debug, Clone, Copy, PartialEq, Eq, Structural)]
pub enum OfficeDivisionError {
    MustBeDividedInAtLeastTwoParts,
}

impl Office {
    /// Divide a real office into at least two standalone subdivision
    /// values, each carrying its own validated capacity and price and
    /// pointing back at this office; the parts otherwise inherit this
    /// office's name, address, coordinates and owner.
    pub fn divide(&self, parts: Vec<(SubdividedAvailablePositions, PositionPrice)>) -> (r: Result<
        Vec<OfficeSubdivision>,
        OfficeDivisionError,
    >)
        requires
            self.id is RealOffice,
        ensures
            r is Ok <==> parts@.len() >= 2,
            r matches Err(e) ==> e == OfficeDivisionError::MustBeDividedInAtLeastTwoParts,
            r matches Ok(v) ==> v@.len() == parts@.len() && (forall|i: int|
                0 <= i < v@.len() ==> {
                    let sub = #[trigger] v@[i];
                    sub.name == self.name && sub.owner == self.owner && sub.available_positions
                        == parts@[i].0 && sub.position_price_per_month == parts@[i].1 && self.id
                        == OfficeId::RealOffice(sub.parent_office)
                }),
    {
        if parts.len() < 2 {
            return Err(OfficeDivisionError::MustBeDividedInAtLeastTwoParts);
        }
        let parent_office_id: RealOfficeId = match self.id {
            OfficeId::RealOffice(id) => id,
            OfficeId::OfficeSplit(_) => {
                proof {
                    assert(false);
                }
                return Err(OfficeDivisionError::MustBeDividedInAtLeastTwoParts);
            },
        };
        let mut subdivisions: Vec<OfficeSubdivision> = Vec::new();
        let mut i: usize = 0;
        while i < parts.len()
            invariant
                i <= parts@.len(),
                subdivisions@.len() == i,
                self.id == OfficeId::RealOffice(parent_office_id),
                forall|k: int|
                    0 <= k < i ==> {
                        let sub = #[trigger] subdivisions@[k];
                        sub.name == self.name && sub.owner == self.owner
                            && sub.available_positions == parts@[k].0
                            && sub.position_price_per_month == parts@[k].1 && sub.parent_office
                            == parent_office_id
                    },
            decreases parts@.len() - i,
        {
            let (available_positions, position_price_per_month) = parts[i];
            subdivisions.push(
                OfficeSubdivision::new(
                    self.name.clone(),
                    Address::new(
                        self.address.clone(),
                        Coordinates { longitude: self.longitude, latitude: self.latitude },
                    ),
                    self.owner,
                    available_positions,
                    position_price_per_month,
                    parent_office_id,
                ),
            );
            i += 1;
        }
        Ok(subdivisions)
    }
}

/// One requested part of an office split: a validated seat count together
/// with the surface that will carry it. Only `OfficeSplit::new` can build
/// one, so every value satisfies the seat-capacity rule.
#[derive(Debug, Clone, Copy)]
pub struct OfficeSplit {
    available_positions: usize,
    surface: usize,
}

impl OfficeSplit {
    pub closed spec fn spec_available_positions(self) -> usize {
        self.available_positions
    }

    pub closed spec fn spec_surface(self) -> usize {
        self.surface
    }

    /// Every split part passes the same seat-capacity validation as a real
    /// office; this holds of every `OfficeSplit` value by construction.
    #[verifier::type_invariant]
    pub closed spec fn wf(self) -> bool {
        spec_validate_available_positions(self.available_positions, self.surface) is None
    }

    pub fn new(available_positions: usize, surface: usize) -> (r: Result<
        OfficeSplit,
        AvailablePositionsError,
    >)
        ensures
            r is Ok <==> spec_validate_available_positions(available_positions, surface) is None,
            r matches Err(e) ==> Some(e) == spec_validate_available_positions(
                available_positions,
                surface,
            ),
            r matches Ok(sp) ==> sp.spec_available_positions() == available_positions
                && sp.spec_surface() == surface && sp.wf(),
    {
        if let Some(error) = validate_available_positions_for_surface(
            available_positions,
            surface,
        ) {
            return Err(error);
        }
        Ok(OfficeSplit { available_positions, surface })
    }

    pub fn available_positions(&self) -> (r: usize)
        ensures
            r == self.spec_available_positions(),
    {
        self.available_positions
    }

    pub fn surface(&self) -> (r: usize)
        ensures
            r == self.spec_surface(),
    {
        self.surface
    }
}

#[derive(Debug, Clone, Copy, PartialEq, Eq, Structural)]
pub enum OfficeSplitError {
    MustBeDividedInAtLeastTwoParts,
    OfficeSubdivisionCannotBeSubdivided,
    TotalSurfaceNotMatching { given: u128, expected: u128 },
    TotalAvailablePositionsNotMatching { given: u128, expected: u128 },
}

/// The surfaces of the requested parts, summed.
pub open spec fn sum_split_surfaces(s: Seq<OfficeSplit>) -> int
    decreases s.len(),
{
    if s.len() == 0 {
        0
    } else {
        sum_split_surfaces(s.drop_last()) + s.last().spec_surface()
    }
}

/// The seat counts of the requested parts, summed.
pub open spec fn sum_split_positions(s: Seq<OfficeSplit>) -> int
    decreases s.len(),
{
    if s.len() == 0 {
        0
    } else {
        sum_split_positions(s.drop_last()) + s.last().spec_available_positions()
    }
}

/// The first reason `Office::split` rejects a request, if any: the checks
/// run in the order part count, office kind, surface sum, seat-count sum.
pub open spec fn spec_split_error(office: Office, splits: Seq<OfficeSplit>) -> Option<
    OfficeSplitError,
> {
    if splits.len() < 2 {
        Some(OfficeSplitError::MustBeDividedInAtLeastTwoParts)
    } else if !(office.id is RealOffice) {
        Some(OfficeSplitError::OfficeSubdivisionCannotBeSubdivided)
    } else if sum_split_surfaces(splits) != office.surface {
        Some(
            OfficeSplitError::TotalSurfaceNotMatching {
                given: sum_split_surfaces(splits) as u128,
                expected: office.surface as u128,
            },
        )
    } else if sum_split_positions(splits) != office.available_positions {
        Some(
            OfficeSplitError::TotalAvailablePositionsNotMatching {
                given: sum_split_positions(splits) as u128,
                expected: office.available_positions as u128,
            },
        )
    } else {
        None
    }
}

impl Office {
    /// Split a real office into at least two parts whose seat counts and
    /// surfaces exactly partition the parent's; each resulting subdivision
    /// keeps the parent's name, address, coordinates, owner and price, gets
    /// a fresh split identifier and points back at the parent. A
    /// subdivision cannot itself be subdivided.
    pub fn split(&self, splits: Vec<OfficeSplit>) -> (r: Result<Vec<Office>, OfficeSplitError>)
        ensures
            r is Ok <==> spec_split_error(*self, splits@) is None,
            r matches Err(e) ==> Some(e) == spec_split_error(*self, splits@),
            r matches Ok(v) ==> v@.len() == splits@.len() && (forall|i: int|
                0 <= i < v@.len() ==> {
                    let o = #[trigger] v@[i];
                    o.name == self.name && o.address == self.address && o.latitude == self.latitude
                        && o.longitude == self.longitude && o.owner == self.owner
                        && o.position_price == self.position_price && o.available_positions
                        == splits@[i].spec_available_positions() && o.surface
                        == splits@[i].spec_surface() && o.id is OfficeSplit && (o.parent_office
                        matches Some(p) && self.id == OfficeId::RealOffice(p)) && (self.wf()
                        ==> o.wf())
                }),
    {
        if splits.len() < 2 {
            return Err(OfficeSplitError::MustBeDividedInAtLeastTwoParts);
        }
        let parent_office_id: RealOfficeId = match self.id {
            OfficeId::RealOffice(id) => id,
            OfficeId::OfficeSplit(_) => {
                return Err(OfficeSplitError::OfficeSubdivisionCannotBeSubdivided);
            },
        };
        let mut total_surface: u128 = 0;
        let mut total_available_positions: u128 = 0;
        let mut i: usize = 0;
        while i < splits.len()
            invariant
                i <= splits@.len(),
                total_surface == sum_split_surfaces(splits@.subrange(0, i as int)),
                total_available_positions == sum_split_positions(splits@.subrange(0, i as int)),
                total_surface <= i as int * 0xffff_ffff_ffff_ffffu128,
                total_available_positions <= i as int * 0xffff_ffff_ffff_ffffu128,
            decreases splits@.len() - i,
        {
            proof {
                let prefix1 = splits@.subrange(0, i as int + 1);
                assert(prefix1.drop_last() =~= splits@.subrange(0, i as int));
                assert(prefix1.last() == splits@[i as int]);
                assert((i as int + 1) * 0xffff_ffff_ffff_ffffu128 == i as int
                    * 0xffff_ffff_ffff_ffffu128 + 0xffff_ffff_ffff_ffffu128) by (nonlinear_arith);
                assert(i as int * 0xffff_ffff_ffff_ffffu128 + 0xffff_ffff_ffff_ffffu128
                    <= 0xffff_ffff_ffff_ffff_ffff_ffff_ffff_ffffu128) by (nonlinear_arith)
                    requires
                        0 <= i as int <= 0xffff_ffff_ffff_ffffu128,
                ;
            }
            total_surface = total_surface + splits[i].surface() as u128;
            total_available_positions = total_available_positions + splits[i].available_positions()
                as u128;
            i += 1;
        }
        proof {
            assert(splits@.subrange(0, splits@.len() as int) =~= splits@);
        }
        if total_surface != self.surface as u128 {
            return Err(
                OfficeSplitError::TotalSurfaceNotMatching {
                    given: total_surface,
                    expected: self.surface as u128,
                },
            );
        }
        if total_available_positions != self.available_positions as u128 {
            return Err(
                OfficeSplitError::TotalAvailablePositionsNotMatching {
                    given: total_available_positions,
                    expected: self.available_positions as u128,
                },
            );
        }
        let mut offices: Vec<Office> = Vec::new();
        let mut j: usize = 0;
        while j < splits.len()
            invariant
                j <= splits@.len(),
                offices@.len() == j,
                spec_split_error(*self, splits@) is None,
                forall|k: int|
                    0 <= k < j ==> {
                        let o = #[trigger] offices@[k];
                        o.name == self.name && o.address == self.address && o.latitude
                            == self.latitude && o.longitude == self.longitude && o.owner
                            == self.owner && o.position_price == self.position_price
                            && o.available_positions == splits@[k].spec_available_positions()
                            && o.surface == splits@[k].spec_surface() && o.id is OfficeSplit && (
                        o.parent_office matches Some(p) && self.id == OfficeId::RealOffice(p)) && (
                        self.wf() ==> o.wf())
                    },
                self.id == OfficeId::RealOffice(parent_office_id),
            decreases splits@.len() - j,
        {
            let split = &splits[j];
            proof {
                use_type_invariant(split);
            }
            offices.push(
                Office {
                    id: OfficeId::OfficeSplit(OfficeSplitId::new()),
                    created_at: now_timestamp(),
                    name: self.name.clone(),
                    address: self.address.clone(),
                    latitude: self.latitude,
                    longitude: self.longitude,
                    owner: self.owner,
                    available_positions: split.available_positions(),
                    surface: split.surface(),
                    position_price: self.position_price,
                    parent_office: Some(parent_office_id),
                },
            );
            j += 1;
        }
        Ok(offices)
    }
}

} // verus!
