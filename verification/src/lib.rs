//! A shared-office rental marketplace: users own and rent office capacity to
//! each other under time-bounded contracts. The core is an occupancy
//! scheduling engine that synthesizes additional contracts over a fixed
//! horizon so that every user accumulates a target number of locked
//! office-days, while never double-booking an office and never renting a
//! user their own office.

pub mod address;
pub mod cli;
pub mod contract;
pub mod date;
pub mod id;
pub mod office;
pub mod position;
pub mod range;
pub mod show;
pub mod simulation;
pub mod subdivision;
pub mod surface;
pub mod user;
pub mod validator;
