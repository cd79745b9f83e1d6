//! A registry of named, tradable ticker identities together with a payment
//! and subscription engine attached to the same ticker namespace.
//!
//! The hosting ledger runtime (atomic transactions, signature-checked
//! callers, keyed record allocation, native value transfer) is modelled by
//! [`ledger::Ledger`] and by the keyed stores in [`registry`] and
//! [`economy`], which reproduce its create-only-if-absent allocation
//! semantics.  Every state transition of the two subsystems is a verified
//! function of this crate.

pub mod ledger;
pub mod registry;
pub mod economy;
