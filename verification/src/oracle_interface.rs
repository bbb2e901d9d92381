//! The price oracle: an admin publishes the collateral price, anyone reads it.
use vstd::prelude::*;

use crate::common::ContractError;

verus! {

/// A published price with its decimals and the ledger time of publication.
#[derive(Clone, Copy, Debug, PartialEq, Eq, Structural)]
pub struct PriceData {
    pub price: i128,
    pub decimals: u32,
    pub updated_at: u64,
}

/// The instance storage of the oracle. `A` is the host's account address type.
#[derive(Debug)]
pub struct OracleInterface<A> {
    pub admin: Option<A>,
    pub price: Option<PriceData>,
}

impl<A> OracleInterface<A> {
    /// The state that `init` produces, or its refusal.
    pub open spec fn init_result(self, admin: A) -> Result<Self, ContractError> {
        if self.admin is Some {
            Err(ContractError::AlreadyInitialized)
        } else {
            Ok(OracleInterface { admin: Some(admin), price: self.price })
        }
    }

    /// The state after a price update, or its refusal.
    pub open spec fn set_price_result(self, caller_is_admin: bool, price: i128, decimals: u32, now: u64)
        -> Result<Self, ContractError>
    {
        if self.admin is None {
            Err(ContractError::NotInitialized)
        } else if !caller_is_admin {
            Err(ContractError::NotAuthorized)
        } else {
            Ok(OracleInterface { admin: self.admin, price: Some(PriceData { price, decimals, updated_at: now }) })
        }
    }

    /// The state of a freshly deployed oracle: nothing stored.
    pub fn new() -> (s: Self)
        ensures
            s.admin is None,
            s.price is None,
    {
        OracleInterface { admin: None, price: None }
    }

    /// Stores the admin; refused when an admin is already stored.
    pub fn init(&mut self, admin: A) -> (r: Result<(), ContractError>)
        ensures
            match r {
                Ok(()) => old(self).init_result(admin) == Ok::<Self, ContractError>(*final(self)),
                Err(e) => old(self).init_result(admin) == Err::<Self, ContractError>(e)
                    && *final(self) == *old(self),
            },
    {
        if self.admin.is_some() {
            return Err(ContractError::AlreadyInitialized);
        }
        self.admin = Some(admin);
        Ok(())
    }

    /// Publishes `price` with `decimals` at ledger time `now`. `caller_is_admin`
    /// is whether the calling address is the stored admin, as the host compares
    /// addresses; it is only consulted once an admin is stored.
    pub fn set_price(&mut self, caller_is_admin: bool, price: i128, decimals: u32, now: u64)
        -> (r: Result<(), ContractError>)
        ensures
            match r {
                Ok(()) => old(self).set_price_result(caller_is_admin, price, decimals, now)
                    == Ok::<Self, ContractError>(*final(self)),
                Err(e) => old(self).set_price_result(caller_is_admin, price, decimals, now)
                    == Err::<Self, ContractError>(e) && *final(self) == *old(self),
            },
    {
        if self.admin.is_none() {
            return Err(ContractError::NotInitialized);
        }
        if !caller_is_admin {
            return Err(ContractError::NotAuthorized);
        }
        self.price = Some(PriceData { price, decimals, updated_at: now });
        Ok(())
    }

    /// The last published price; refused before any price is published.
    pub fn get_price(&self) -> (r: Result<PriceData, ContractError>)
        ensures
            match self.price {
                Some(p) => r == Ok::<PriceData, ContractError>(p),
                None => r == Err::<PriceData, ContractError>(ContractError::PriceNotAvailable),
            },
    {
        match self.price {
            Some(p) => Ok(p),
            None => Err(ContractError::PriceNotAvailable),
        }
    }
}

/// A price update is accepted exactly when an admin is stored and the caller
/// is that admin; it then stores the price, its decimals and the ledger time,
/// and keeps the admin.
pub proof fn lemma_set_price_accepted<A>(oracle: OracleInterface<A>, caller_is_admin: bool, price: i128, decimals: u32, now: u64)
    ensures
        (oracle.set_price_result(caller_is_admin, price, decimals, now) is Ok) <==> (oracle.admin is Some && caller_is_admin),
        oracle.set_price_result(caller_is_admin, price, decimals, now) matches Ok(after) ==> {
            &&& after.price == Some(PriceData { price, decimals, updated_at: now })
            &&& after.admin == oracle.admin
        },
{
}

/// The oracle is initialised once: after a successful `init`, every further `init` is refused.
pub proof fn lemma_init_once<A>(oracle: OracleInterface<A>, admin: A, again: A)
    requires
        oracle.init_result(admin) is Ok,
    ensures
        oracle.init_result(admin)->Ok_0.init_result(again) == Err::<OracleInterface<A>, ContractError>(
            ContractError::AlreadyInitialized,
        ),
{
}

/// A read after an accepted update gives back exactly what was published, stamped
/// with the ledger time of the update; an update by anyone but the admin of an
/// initialised oracle is refused.
pub proof fn lemma_price_read_after_write<A>(oracle: OracleInterface<A>, caller_is_admin: bool, price: i128, decimals: u32, now: u64)
    requires
        oracle.admin is Some,
    ensures
        caller_is_admin ==> oracle.set_price_result(caller_is_admin, price, decimals, now) is Ok,
        caller_is_admin ==> oracle.set_price_result(caller_is_admin, price, decimals, now)->Ok_0.price
            == Some(PriceData { price, decimals, updated_at: now }),
        !caller_is_admin ==> oracle.set_price_result(caller_is_admin, price, decimals, now)
            == Err::<OracleInterface<A>, ContractError>(ContractError::NotAuthorized),
{
}

} // verus!
