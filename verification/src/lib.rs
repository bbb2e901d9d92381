//! Verified core of the MicroStack lending contracts for Stellar Soroban.
//!
//! Each contract's stored state is a plain value here, and each entry point is
//! a method that either refuses the call with a [`common::ContractError`] (leaving
//! the state as it was) or updates the state and lists the token movements the
//! host must carry out.
pub mod common;
pub mod interest_strategy;
pub mod lending_pool;
pub mod microlending;
pub mod collateral_liquidation;
pub mod oracle_interface;
