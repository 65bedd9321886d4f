//! Settlement bookkeeping for an order and fill ledger: append-only activity
//! logs per address and kind with paginated reads, a tiered execution fee,
//! the admin-controlled configuration, and padding of responses.

use vstd::prelude::*;

pub mod fee;
pub mod pad;
pub mod bytes;
pub mod activity;
pub mod paging;
pub mod config;
pub mod contract;

verus! {

} // verus!
