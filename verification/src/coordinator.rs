//! The requester side: who may run a job, who wins it, what it costs.

pub mod account;
pub mod attempt;
pub mod candidates;
pub mod capacity;
pub mod error;
pub mod failure;
pub mod judge;
pub mod local;
pub mod metering;
pub mod params;
pub mod progress;
pub mod request;
pub mod resilient;
pub mod selection;
pub mod settle;
