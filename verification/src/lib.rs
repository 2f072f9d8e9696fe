//! A seed-keyed token registry: a deterministic seed-to-species sampler and
//! the ownership, balance, delegate and operator bookkeeping around it, with
//! the registry-wide invariants proved to hold after every operation.

mod assoc;
pub mod ledger;
pub mod rng;
