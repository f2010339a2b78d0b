use vstd::prelude::*;

use crate::date::{now_timestamp, Timestamp};
use crate::id::UserId;

verus! {

/// A marketplace member. A user can be both a host and a guest at the same
/// time; ownership and tenancy are derived from `Office::owner` and
/// `Contract::guest`, never stored on the user itself.
#[derive(Debug)]
pub struct User {
    pub id: UserId,
    pub created_at: Timestamp,
    pub first_name: String,
    pub last_name: String,
}

/// The role a user plays towards one office; a single user cannot be both
/// the guest and the host of the same contract.
#[derive(Debug, Clone, Copy, PartialEq, Eq, Structural)]
pub enum UserOfficeRelation {
    Guest,
    Host,
}

impl User {
    /// A new user with a fresh identifier and the current creation time.
    pub fn new(first_name: String, last_name: String) -> (r: Self)
        ensures
            r.first_name == first_name,
            r.last_name == last_name,
    {
        Self { id: UserId::new(), created_at: now_timestamp(), first_name, last_name }
    }

    /// Rebuild a user from already-persisted fields, without minting a new
    /// identifier.
    pub fn new_unchecked(
        id: UserId,
        created_at: Timestamp,
        first_name: String,
        last_name: String,
    ) -> (r: Self)
        ensures
            r == (User { id, created_at, first_name, last_name }),
    {
        Self { id, created_at, first_name, last_name }
    }

    pub fn id(&self) -> (r: UserId)
        ensures
            r == self.id,
    {
        self.id
    }

    pub fn created_at(&self) -> (r: Timestamp)
        ensures
            r == self.created_at,
    {
        self.created_at
    }

    pub fn first_name(&self) -> (r: &String)
        ensures
            r == self.first_name,
    {
        &self.first_name
    }

    pub fn last_name(&self) -> (r: &String)
        ensures
            r == self.last_name,
    {
        &self.last_name
    }
}

} // verus!
