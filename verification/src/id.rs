use vstd::prelude::*;

verus! {

/// Relies on `uuid::Uuid::now_v7` (via `as_u128`) for a fresh, globally
/// unique, time-ordered identifier token. Nothing is assumed about the
/// value: it depends on the clock and on random state.
#[verifier::external_body]
pub(crate) fn fresh_id_value() -> (r: u128) {
    uuid::Uuid::now_v7().as_u128()
}

/// Identifies a user (rendered as `usr-<token>`).
#[derive(Clone, Copy, PartialEq, Eq, Structural, Debug)]
pub struct UserId {
    pub value: u128,
}

impl UserId {
    pub fn new() -> Self {
        Self { value: fresh_id_value() }
    }

    pub fn from_value(value: u128) -> (r: Self)
        ensures
            r.value == value,
    {
        Self { value }
    }

    pub fn value(&self) -> (r: u128)
        ensures
            r == self.value,
    {
        self.value
    }
}

/// Identifies a real (undivided) office (rendered as `ofc-<token>`).
#[derive(Clone, Copy, PartialEq, Eq, Structural, Debug)]
pub struct RealOfficeId {
    pub value: u128,
}

impl RealOfficeId {
    pub fn new() -> Self {
        Self { value: fresh_id_value() }
    }

    pub fn from_value(value: u128) -> (r: Self)
        ensures
            r.value == value,
    {
        Self { value }
    }

    pub fn value(&self) -> (r: u128)
        ensures
            r == self.value,
    {
        self.value
    }
}

/// Identifies one part of a split office (rendered as `spl-<token>`).
#[derive(Clone, Copy, PartialEq, Eq, Structural, Debug)]
pub struct OfficeSplitId {
    pub value: u128,
}

impl OfficeSplitId {
    pub fn new() -> Self {
        Self { value: fresh_id_value() }
    }

    pub fn from_value(value: u128) -> (r: Self)
        ensures
            r.value == value,
    {
        Self { value }
    }

    pub fn value(&self) -> (r: u128)
        ensures
            r == self.value,
    {
        self.value
    }
}

/// Identifies a contract (rendered as `agr-<token>`).
#[derive(Clone, Copy, PartialEq, Eq, Structural, Debug)]
pub struct ContractId {
    pub value: u128,
}

impl ContractId {
    pub fn new() -> Self {
        Self { value: fresh_id_value() }
    }

    pub fn from_value(value: u128) -> (r: Self)
        ensures
            r.value == value,
    {
        Self { value }
    }

    pub fn value(&self) -> (r: u128)
        ensures
            r == self.value,
    {
        self.value
    }
}

/// Identifies an office subdivision (rendered as `spl-<token>`).
#[derive(Clone, Copy, PartialEq, Eq, Structural, Debug)]
pub struct SubdivisionId {
    pub value: u128,
}

impl SubdivisionId {
    pub fn new() -> Self {
        Self { value: fresh_id_value() }
    }

    pub fn from_value(value: u128) -> (r: Self)
        ensures
            r.value == value,
    {
        Self { value }
    }

    pub fn value(&self) -> (r: u128)
        ensures
            r == self.value,
    {
        self.value
    }
}

/// A rentable resource is either a real office or one part of a split
/// office; the two kinds of identifier are not interchangeable.
#[derive(Clone, Copy, PartialEq, Eq, Structural, Debug)]
pub enum OfficeId {
    RealOffice(RealOfficeId),
    OfficeSplit(OfficeSplitId),
}

impl OfficeId {
    /// The raw token common to both identifier kinds.
    pub fn value(&self) -> u128 {
        match self {
            OfficeId::RealOffice(id) => id.value(),
            OfficeId::OfficeSplit(id) => id.value(),
        }
    }
}

} // verus!
