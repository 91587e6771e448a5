//! Converts a broker's transaction export into the entries of a
//! double-entry bookkeeping import: one voucher per purchase, dividend
//! (with the tax withheld on it) and interest payment, numbered in order.
use vstd::prelude::*;

pub mod amount;
pub mod date;
pub mod record;
pub mod converter;
pub mod laws;

verus! {

} // verus!
