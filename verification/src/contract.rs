use vstd::prelude::*;

use crate::date::{now_timestamp, Date, Timestamp};
use crate::id::{ContractId, OfficeId, UserId};
use crate::office::Office;
use crate::range::DateRange;
use crate::user::UserOfficeRelation;

verus! {

/// The single hard temporal constraint of the system: no contract may span
/// fewer than 120 days.
pub const CONTRACT_DURATION_MINIMUM_DAYS: i64 = 30 * 4;

/// A rental agreement: the `guest` rents office `office` from its owner
/// (the `host`) for `rent` cents per month over `[start, end]`. Immutable
/// once created.
#[derive(Debug)]
pub struct Contract {
    pub id: ContractId,
    pub created_at: Timestamp,
    pub host: UserId,
    pub guest: UserId,
    pub office: OfficeId,
    pub rent: usize,
    pub start: Date,
    pub end: Date,
}

#[derive(Debug, Clone, Copy, PartialEq, Eq, Structural)]
pub enum ContractError {
    TooShort { days: i64 },
}

impl Contract {
    /// The dates a contract carries stay within the day-number range that
    /// the calendar library can produce, so date arithmetic on them cannot
    /// overflow.
    pub open spec fn dates_wf(self) -> bool {
        self.start.wf() && self.end.wf()
    }

    /// The span a contract locks, as a date range.
    pub open spec fn spec_range(self) -> DateRange {
        DateRange { start: self.start, end: self.end }
    }

    /// Build a contract after checking the minimum duration; on success the
    /// contract gets a fresh identifier and the current creation time.
    pub fn new(
        host: UserId,
        guest: UserId,
        office: OfficeId,
        rent: usize,
        start: Date,
        end: Date,
    ) -> (r: Result<Contract, ContractError>)
        requires
            start.wf(),
            end.wf(),
        ensures
            r is Ok <==> end.days - start.days >= CONTRACT_DURATION_MINIMUM_DAYS,
            r matches Err(e) ==> e == (ContractError::TooShort {
                days: (end.days - start.days) as i64,
            }),
            r matches Ok(c) ==> c.host == host && c.guest == guest && c.office == office && c.rent
                == rent && c.start == start && c.end == end,
    {
        let contract_length: i64 = end.days - start.days;
        if CONTRACT_DURATION_MINIMUM_DAYS > contract_length {
            return Err(ContractError::TooShort { days: contract_length });
        }
        Ok(
            Contract {
                id: ContractId::new(),
                created_at: now_timestamp(),
                host,
                guest,
                office,
                rent,
                start,
                end,
            },
        )
    }

    /// Convenience constructor: derive host and rent from the office (rent
    /// is seat count times seat price) and delegate to `new`.
    pub fn for_office(office: &Office, guest: UserId, start: Date, end: Date) -> (r: Result<
        Contract,
        ContractError,
    >)
        requires
            start.wf(),
            end.wf(),
            office.wf(),
        ensures
            r is Ok <==> end.days - start.days >= CONTRACT_DURATION_MINIMUM_DAYS,
            r matches Err(e) ==> e == (ContractError::TooShort {
                days: (end.days - start.days) as i64,
            }),
            r matches Ok(c) ==> c.host == office.owner && c.guest == guest && c.office == office.id
                && c.rent == office.available_positions * office.position_price && c.start == start
                && c.end == end,
    {
        let available_positions = office.available_positions();
        let position_price = office.position_price();
        proof {
            assert(available_positions * position_price <= 180 * 80000) by (nonlinear_arith)
                requires
                    available_positions <= 180 && position_price <= 80000,
            ;
        }
        Contract::new(office.owner(), guest, office.id(), available_positions * position_price, start, end)
    }

    /// Rebuild a contract from already-persisted fields, without validation
    /// and without minting a new identifier.
    pub fn new_unchecked(
        id: ContractId,
        created_at: Timestamp,
        host: UserId,
        guest: UserId,
        office: OfficeId,
        rent: usize,
        start: Date,
        end: Date,
    ) -> (r: Contract)
        ensures
            r == (Contract { id, created_at, host, guest, office, rent, start, end }),
    {
        Contract { id, created_at, host, guest, office, rent, start, end }
    }

    /// How many days the contract spans.
    pub fn duration(&self) -> (r: i64)
        requires
            self.dates_wf(),
        ensures
            r == self.end.days - self.start.days,
    {
        self.end.days - self.start.days
    }

    /// The span the contract locks, as a date range.
    pub fn date_range(&self) -> (r: DateRange)
        ensures
            r == self.spec_range(),
    {
        DateRange { start: self.start, end: self.end }
    }

    /// The role `user` plays in this contract, if any; the host takes
    /// precedence, though no valid contract has `guest == host`.
    pub fn relation_of(&self, user: UserId) -> (r: Option<UserOfficeRelation>)
        ensures
            r == (if user == self.host {
                Some(UserOfficeRelation::Host)
            } else if user == self.guest {
                Some(UserOfficeRelation::Guest)
            } else {
                None::<UserOfficeRelation>
            }),
    {
        if user == self.host {
            Some(UserOfficeRelation::Host)
        } else if user == self.guest {
            Some(UserOfficeRelation::Guest)
        } else {
            None
        }
    }

    pub fn id(&self) -> (r: ContractId)
        ensures
            r == self.id,
    {
        self.id
    }

    pub fn created_at(&self) -> (r: Timestamp)
        ensures
            r == self.created_at,
    {
        self.created_at
    }

    pub fn host(&self) -> (r: UserId)
        ensures
            r == self.host,
    {
        self.host
    }

    pub fn guest(&self) -> (r: UserId)
        ensures
            r == self.guest,
    {
        self.guest
    }

    pub fn office(&self) -> (r: OfficeId)
        ensures
            r == self.office,
    {
        self.office
    }

    pub fn rent(&self) -> (r: usize)
        ensures
            r == self.rent,
    {
        self.rent
    }

    pub fn start(&self) -> (r: Date)
        ensures
            r == self.start,
    {
        self.start
    }

    pub fn end(&self) -> (r: Date)
        ensures
            r == self.end,
    {
        self.end
    }
}

/// A validated contract span: at least the minimum duration long.
#[derive(Debug, Clone, Copy, PartialEq, Eq, Structural)]
pub struct ContractDuration {
    pub start: Date,
    pub end: Date,
}

#[derive(Debug, Clone, Copy, PartialEq, Eq, Structural)]
pub enum ContractDurationError {
    TooShort,
}

impl ContractDuration {
    pub fn new(start: Date, end: Date) -> (r: Result<ContractDuration, ContractDurationError>)
        requires
            start.wf(),
            end.wf(),
        ensures
            r is Ok <==> end.days - start.days >= CONTRACT_DURATION_MINIMUM_DAYS,
            r matches Ok(d) ==> d == (ContractDuration { start, end }),
            r matches Err(e) ==> e == ContractDurationError::TooShort,
    {
        let days: i64 = end.days - start.days;
        if CONTRACT_DURATION_MINIMUM_DAYS > days {
            return Err(ContractDurationError::TooShort);
        }
        Ok(ContractDuration { start, end })
    }
}

} // verus!
